use vstd::prelude::*;
use super::Tool;
use crate::common::{ID, Scene, Target, Timed};
use crate::dynamic::{Appliable, AppliableBox, AppliableKind, Applier, Attribute, Dynamic, Trigger};
use crate::map::Area;
use std::rc::Rc;

verus! {

/// The statistics of a weapon, indexed by `WeaponStatistic`.
pub type WeaponStatistics = [u8; 4];

/// A statistic of a weapon.
#[derive(Debug, Clone, Copy, PartialEq, Eq, Structural)]
pub enum WeaponStatistic {
    /// damage - base damage
    DMG,
    /// slash - modifier for physical damage, strong against manpower
    SLH,
    /// pierce - modifier for physical damage, strong against morale
    PRC,
    /// decay - modifier for magical damage
    DCY,
    Length,
}

impl WeaponStatistic {
    /// The position of the statistic in a weapon's statistics.
    pub open spec fn index(self) -> int {
        match self {
            WeaponStatistic::DMG => 0,
            WeaponStatistic::SLH => 1,
            WeaponStatistic::PRC => 2,
            WeaponStatistic::DCY => 3,
            WeaponStatistic::Length => 4,
        }
    }
}

/// A weapon: statistics, an area of effect, a range, and an attribute applied on attack.
#[derive(Debug, Clone, Copy)]
pub struct Weapon {
    id: ID,
    statistics: WeaponStatistics,
    area: Area,
    range: u8,
    attribute_on_attack: Option<Attribute>,
}

impl Weapon {
    /// The identifier.
    pub closed spec fn id(&self) -> ID {
        self.id
    }

    /// The statistics, indexed by `WeaponStatistic::index`.
    pub closed spec fn statistics(&self) -> Seq<u8> {
        self.statistics@
    }

    /// The area of effect.
    pub closed spec fn area(&self) -> Area {
        self.area
    }

    /// The range.
    pub closed spec fn range(&self) -> u8 {
        self.range
    }

    /// The attribute applied on attack.
    pub closed spec fn attribute_on_attack(&self) -> Option<Attribute> {
        self.attribute_on_attack
    }

    /// The value of a statistic.
    pub open spec fn statistic(&self, statistic: WeaponStatistic) -> u16 {
        self.statistics()[statistic.index()] as u16
    }

    /// This weapon, with `attribute` as its attribute applied on attack.
    pub closed spec fn with_attribute(self, attribute: Option<Attribute>) -> Weapon {
        Weapon { attribute_on_attack: attribute, ..self }
    }

    /// The statistics of a weapon always number four.
    pub proof fn lemma_statistics_len(&self)
        ensures
            self.statistics().len() == 4,
    {
    }

    /// Changing the attribute keeps everything else.
    pub proof fn lemma_with_attribute(self, attribute: Option<Attribute>)
        ensures
            self.with_attribute(attribute).id() == self.id(),
            self.with_attribute(attribute).statistics() == self.statistics(),
            self.with_attribute(attribute).area() == self.area(),
            self.with_attribute(attribute).range() == self.range(),
            self.with_attribute(attribute).attribute_on_attack() == attribute,
    {
    }

    /// Creates a weapon with no attribute.
    pub fn new(id: ID, statistics: WeaponStatistics, area: Area, range: u8) -> (weapon: Self)
        ensures
            weapon.id() == id,
            weapon.statistics() == statistics@,
            weapon.area() == area,
            weapon.range() == range,
            weapon.attribute_on_attack() == None::<Attribute>,
    {
        let attribute_on_attack: Option<Attribute> = None;

        Self { id, statistics, area, range, attribute_on_attack }
    }

    /// Gets a statistic.
    pub fn get_statistic(&self, statistic: WeaponStatistic) -> (value: u16)
        requires
            statistic != WeaponStatistic::Length,
        ensures
            value == self.statistic(statistic),
    {
        let index: usize = match statistic {
            WeaponStatistic::DMG => 0,
            WeaponStatistic::SLH => 1,
            WeaponStatistic::PRC => 2,
            WeaponStatistic::DCY => 3,
            WeaponStatistic::Length => 4,
        };

        self.statistics[index] as u16
    }

    /// Gets the identifier.
    pub fn get_id(&self) -> (id: ID)
        ensures
            id == self.id(),
    {
        self.id
    }

    /// Gets what the weapon's attacks target: one enemy for a single area, else several.
    pub fn get_target(&self) -> (target: Target)
        ensures
            target == (if self.area() == Area::Single { Target::Enemy } else { Target::Enemies }),
    {
        match self.area {
            Area::Single => Target::Enemy,
            Area::Radial(..) | Area::Path(..) => Target::Enemies,
        }
    }

    /// Gets the attribute applied on attack.
    pub fn get_attribute_on_attack(&self) -> (attribute: Option<Attribute>)
        ensures
            attribute == self.attribute_on_attack(),
    {
        self.attribute_on_attack
    }
}

impl Tool for Weapon {
    fn get_area(&self) -> (area: Area)
        ensures
            area == self.area(),
    {
        self.area
    }

    fn get_range(&self) -> (range: u8)
        ensures
            range == self.range(),
    {
        self.range
    }
}

impl Dynamic for Weapon {
    /// A weapon takes only an attribute triggered on attack.
    open spec fn accepts(&self, appliable: AppliableBox) -> bool {
        appliable matches AppliableBox::Attribute(a) && a.trigger() == Trigger::OnAttack
    }

    /// A weapon holds only attributes.
    open spec fn removable(&self, kind: AppliableKind) -> bool {
        kind is Attribute
    }

    open spec fn decrementable(&self) -> bool {
        true
    }

    /// The attribute replaces the weapon's attribute applied on attack.
    fn add_appliable(&mut self, appliable: AppliableBox) -> (is_added: bool)
        ensures
            is_added,
            *final(self) == old(self).with_attribute(Some(appliable->Attribute_0)),
    {
        let attribute: Attribute = appliable.attribute();

        self.attribute_on_attack = Some(attribute);

        true
    }

    /// The attribute applied on attack is removed when its identifier matches.
    fn remove_appliable(&mut self, appliable: AppliableKind) -> (is_removed: bool)
        ensures
            is_removed == (old(self).attribute_on_attack() matches Some(a) && a.id() == appliable->Attribute_0),
            *final(self) == if is_removed { old(self).with_attribute(None) } else { *old(self) },
    {
        let attribute_id: ID = appliable.attribute_id();

        match self.attribute_on_attack {
            Some(attribute) => {
                if attribute.get_id() == attribute_id {
                    self.attribute_on_attack = None;

                    true
                } else {
                    false
                }
            },
            None => false,
        }
    }

    /// The attribute applied on attack loses a turn, and is dropped once it has expired.
    fn decrement_durations(&mut self)
        ensures
            match old(self).attribute_on_attack() {
                None => *final(self) == *old(self),
                Some(a) => *final(self) == old(self).with_attribute(
                    if a.survives() { Some(a.decremented()) } else { None },
                ),
            },
    {
        if let Some(mut attribute) = self.attribute_on_attack {
            let is_survived: bool = attribute.decrement_duration();

            self.attribute_on_attack = if is_survived {
                Some(attribute)
            } else {
                None
            };
        }
    }
}

impl Applier for Weapon {
    open spec fn valid_in(&self, scene: Scene) -> bool {
        self.attribute_on_attack() matches Some(a) ==> scene.valid_kind(a.appliable_kind())
    }

    /// A weapon yields the change of its attribute applied on attack, if it has one.
    fn try_yield_appliable(&self, scene: Rc<Scene>) -> (appliable: Option<AppliableBox>)
        ensures
            appliable == match self.attribute_on_attack() {
                Some(a) => Some(scene.appliable_of(a.appliable_kind())),
                None => None::<AppliableBox>,
            },
    {
        match self.attribute_on_attack {
            Some(attribute) => attribute.try_yield_appliable(scene),
            None => None,
        }
    }

    /// A weapon's attribute targets the enemy.
    fn get_target(&self) -> (target: Target)
        ensures
            target == Target::Enemy,
    {
        Target::Enemy
    }
}

} // verus!
