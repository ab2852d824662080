use vstd::prelude::*;
use super::Tool;
use crate::common::{ID, Scene, Target};
use crate::dynamic::{AppliableBox, Applier, Attribute};
use crate::map::Area;
use std::rc::Rc;

verus! {

/// The element of a magic.
#[derive(Debug, Clone, Copy, PartialEq, Eq, Structural)]
pub enum Element {
    Matter,
    Dark,
    Light,
    Length,
}

impl Element {
    /// The position of the element in a unit's usable magics.
    pub open spec fn index(self) -> int {
        match self {
            Element::Matter => 0,
            Element::Dark => 1,
            Element::Light => 2,
            Element::Length => 3,
        }
    }

    /// The position of the element in a unit's usable magics.
    pub(crate) fn position(self) -> (index: usize)
        requires
            self != Element::Length,
        ensures
            index == self.index(),
    {
        match self {
            Element::Matter => 0,
            Element::Dark => 1,
            Element::Light => 2,
            Element::Length => 3,
        }
    }
}

/// A magic: an attribute it applies, a target, an area, a range, a cost and an element.
#[derive(Debug, Clone, Copy)]
pub struct Magic {
    id: ID,
    attribute_id: ID,
    target: Target,
    area: Area,
    range: u8,
    cost: u16,
    element: Element,
}

impl Magic {
    /// The identifier.
    pub closed spec fn id(&self) -> ID {
        self.id
    }

    /// The attribute the magic applies.
    pub closed spec fn attribute(&self) -> ID {
        self.attribute_id
    }

    /// What the magic targets.
    pub closed spec fn target(&self) -> Target {
        self.target
    }

    /// The area of effect.
    pub closed spec fn area(&self) -> Area {
        self.area
    }

    /// The range.
    pub closed spec fn range(&self) -> u8 {
        self.range
    }

    /// The cost.
    pub closed spec fn cost(&self) -> u16 {
        self.cost
    }

    /// The element.
    pub closed spec fn element(&self) -> Element {
        self.element
    }

    /// Creates a magic; it targets only its caster or the map.
    pub fn new(id: ID, attribute_id: ID, target: Target, area: Area, range: u8, cost: u16, element: Element) -> (magic: Self)
        requires
            target is This || target is OnMap,
        ensures
            magic.id() == id,
            magic.attribute() == attribute_id,
            magic.target() == target,
            magic.area() == area,
            magic.range() == range,
            magic.cost() == cost,
            magic.element() == element,
    {
        Self { id, attribute_id, target, area, range, cost, element }
    }

    /// Gets the identifier.
    pub fn get_id(&self) -> (id: ID)
        ensures
            id == self.id(),
    {
        self.id
    }

    /// Gets the attribute the magic applies.
    pub fn get_attribute_id(&self) -> (attribute_id: ID)
        ensures
            attribute_id == self.attribute(),
    {
        self.attribute_id
    }

    /// Gets the cost.
    pub fn get_cost(&self) -> (cost: u16)
        ensures
            cost == self.cost(),
    {
        self.cost
    }

    /// Gets the element.
    pub fn get_element(&self) -> (element: Element)
        ensures
            element == self.element(),
    {
        self.element
    }
}

impl Tool for Magic {
    fn get_area(&self) -> (area: Area)
        ensures
            area == self.area(),
    {
        self.area
    }

    fn get_range(&self) -> (range: u8)
        ensures
            range == self.range(),
    {
        self.range
    }
}

impl Applier for Magic {
    open spec fn valid_in(&self, scene: Scene) -> bool {
        self.attribute() < scene.attributes().len()
    }

    /// A magic yields the change of its attribute.
    fn try_yield_appliable(&self, scene: Rc<Scene>) -> (appliable: Option<AppliableBox>)
        ensures
            appliable == Some(scene.appliable_of(scene.attributes()[self.attribute() as int].appliable_kind())),
    {
        let attribute: Attribute = *scene.get_attribute(&self.attribute_id);

        proof {
            scene.lemma_attribute_valid(self.attribute_id as int);
        }
        Some(attribute.get_kind().appliable(scene))
    }

    fn get_target(&self) -> (target: Target)
        ensures
            target == self.target(),
    {
        self.target
    }
}

} // verus!
