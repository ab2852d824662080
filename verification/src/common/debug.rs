use vstd::prelude::*;
use super::{DURATION_PERMANENT, ID, ID_UNINITIALISED, Scene, ShortList, Target};
use crate::character::{Element, FactionBuilder, Magic, Skill, SkillKind, UnitBuilder, UnitStatistic, UnitStatistics, Weapon};
use crate::dynamic::{AppliableKind, Attribute, Effect, Modifier, StatisticKind, Trigger};
use crate::map::{Area, City, Location, Terrain, TileBuilder};

verus! {

/// Whether `modifiers` are The modifiers of the debug scene.
pub open spec fn is_debug_modifiers(modifiers: Seq<Modifier>) -> bool {
    &&& modifiers.len() == 10
    &&& modifiers[0].id() == 0
    &&& modifiers[0].adjustments() == seq![(StatisticKind::Tile(false), 1u16, true)]
    &&& modifiers[0].duration_capacity() == crate::common::Capacity::spec_from_duration(2)
    &&& modifiers[0].stacks() == false
    &&& modifiers[0].every_turn() == false
    &&& modifiers[0].next() == None::<ID>
    &&& modifiers[0].applier() == None::<ID>
    &&& modifiers[1].id() == 1
    &&& modifiers[1].adjustments() == seq![(StatisticKind::Tile(false), 1u16, false)]
    &&& modifiers[1].duration_capacity() == crate::common::Capacity::spec_from_duration(DURATION_PERMANENT)
    &&& modifiers[1].stacks() == false
    &&& modifiers[1].every_turn() == false
    &&& modifiers[1].next() == None::<ID>
    &&& modifiers[1].applier() == None::<ID>
    &&& modifiers[2].id() == 2
    &&& modifiers[2].adjustments() == seq![(StatisticKind::Tile(true), 1u16, false)]
    &&& modifiers[2].duration_capacity() == crate::common::Capacity::spec_from_duration(1)
    &&& modifiers[2].stacks() == false
    &&& modifiers[2].every_turn() == false
    &&& modifiers[2].next() == Some(0usize)
    &&& modifiers[2].applier() == None::<ID>
    &&& modifiers[3].id() == 3
    &&& modifiers[3].adjustments() == seq![(StatisticKind::Unit(UnitStatistic::ATK), 20u16, true)]
    &&& modifiers[3].duration_capacity() == crate::common::Capacity::spec_from_duration(2)
    &&& modifiers[3].stacks() == true
    &&& modifiers[3].every_turn() == false
    &&& modifiers[3].next() == None::<ID>
    &&& modifiers[3].applier() == None::<ID>
    &&& modifiers[4].id() == 4
    &&& modifiers[4].adjustments() == seq![(StatisticKind::Unit(UnitStatistic::ATK), 10u16, true), (StatisticKind::Unit(UnitStatistic::DEF), 10u16, false)]
    &&& modifiers[4].duration_capacity() == crate::common::Capacity::spec_from_duration(DURATION_PERMANENT)
    &&& modifiers[4].stacks() == true
    &&& modifiers[4].every_turn() == true
    &&& modifiers[4].next() == None::<ID>
    &&& modifiers[4].applier() == None::<ID>
    &&& modifiers[5].id() == 5
    &&& modifiers[5].adjustments() == seq![(StatisticKind::Unit(UnitStatistic::ATK), 10u16, false)]
    &&& modifiers[5].duration_capacity() == crate::common::Capacity::spec_from_duration(1)
    &&& modifiers[5].stacks() == false
    &&& modifiers[5].every_turn() == false
    &&& modifiers[5].next() == None::<ID>
    &&& modifiers[5].applier() == None::<ID>
    &&& modifiers[6].id() == 6
    &&& modifiers[6].adjustments() == seq![(StatisticKind::Unit(UnitStatistic::HLT), 2u16, false)]
    &&& modifiers[6].duration_capacity() == crate::common::Capacity::spec_from_duration(1)
    &&& modifiers[6].stacks() == false
    &&& modifiers[6].every_turn() == false
    &&& modifiers[6].next() == Some(5usize)
    &&& modifiers[6].applier() == None::<ID>
    &&& modifiers[7].id() == 7
    &&& modifiers[7].adjustments() == seq![(StatisticKind::Unit(UnitStatistic::DEF), 10u16, false)]
    &&& modifiers[7].duration_capacity() == crate::common::Capacity::spec_from_duration(1)
    &&& modifiers[7].stacks() == false
    &&& modifiers[7].every_turn() == false
    &&& modifiers[7].next() == None::<ID>
    &&& modifiers[7].applier() == None::<ID>
    &&& modifiers[8].id() == 8
    &&& modifiers[8].adjustments() == seq![(StatisticKind::Unit(UnitStatistic::MAG), 10u16, false)]
    &&& modifiers[8].duration_capacity() == crate::common::Capacity::spec_from_duration(1)
    &&& modifiers[8].stacks() == true
    &&& modifiers[8].every_turn() == true
    &&& modifiers[8].next() == None::<ID>
    &&& modifiers[8].applier() == None::<ID>
    &&& modifiers[9].id() == 9
    &&& modifiers[9].adjustments() == seq![(StatisticKind::Tile(true), 1u16, false)]
    &&& modifiers[9].duration_capacity() == crate::common::Capacity::spec_from_duration(1)
    &&& modifiers[9].stacks() == false
    &&& modifiers[9].every_turn() == false
    &&& modifiers[9].next() == None::<ID>
    &&& modifiers[9].applier() == None::<ID>
}

/// Whether `effects` are The effects of the debug scene.
pub open spec fn is_debug_effects(effects: Seq<Effect>) -> bool {
    &&& effects.len() == 2
    &&& effects[0].id() == 0
    &&& effects[0].adjustments() == seq![(StatisticKind::Unit(UnitStatistic::HLT), 2u16, false)]
    &&& effects[0].flat()
    &&& effects[1].id() == 1
    &&& effects[1].adjustments() == seq![(StatisticKind::Unit(UnitStatistic::ATK), 5u16, true), (StatisticKind::Unit(UnitStatistic::DEF), 5u16, false)]
    &&& !effects[1].flat()
}

/// Whether `attributes` are The attributes of the debug scene.
pub open spec fn is_debug_attributes(attributes: Seq<Attribute>) -> bool {
    &&& attributes.len() == 11
    &&& attributes[0].id() == 0
    &&& attributes[0].appliable_kind() == AppliableKind::Modifier(3)
    &&& attributes[0].trigger() == Trigger::Always
    &&& attributes[0].duration_capacity() == crate::common::Capacity::spec_from_duration(DURATION_PERMANENT)
    &&& attributes[0].applier() == None::<ID>
    &&& attributes[1].id() == 1
    &&& attributes[1].appliable_kind() == AppliableKind::Modifier(5)
    &&& attributes[1].trigger() == Trigger::Always
    &&& attributes[1].duration_capacity() == crate::common::Capacity::spec_from_duration(2)
    &&& attributes[1].applier() == None::<ID>
    &&& attributes[2].id() == 2
    &&& attributes[2].appliable_kind() == AppliableKind::Modifier(6)
    &&& attributes[2].trigger() == Trigger::OnOccupy
    &&& attributes[2].duration_capacity() == crate::common::Capacity::spec_from_duration(2)
    &&& attributes[2].applier() == None::<ID>
    &&& attributes[3].id() == 3
    &&& attributes[3].appliable_kind() == AppliableKind::Modifier(1)
    &&& attributes[3].trigger() == Trigger::OnOccupy
    &&& attributes[3].duration_capacity() == crate::common::Capacity::spec_from_duration(DURATION_PERMANENT)
    &&& attributes[3].applier() == None::<ID>
    &&& attributes[4].id() == 4
    &&& attributes[4].appliable_kind() == AppliableKind::Modifier(6)
    &&& attributes[4].trigger() == Trigger::OnOccupy
    &&& attributes[4].duration_capacity() == crate::common::Capacity::spec_from_duration(2)
    &&& attributes[4].applier() == None::<ID>
    &&& attributes[5].id() == 5
    &&& attributes[5].appliable_kind() == AppliableKind::Modifier(6)
    &&& attributes[5].trigger() == Trigger::OnHit
    &&& attributes[5].duration_capacity() == crate::common::Capacity::spec_from_duration(2)
    &&& attributes[5].applier() == None::<ID>
    &&& attributes[6].id() == 6
    &&& attributes[6].appliable_kind() == AppliableKind::Modifier(6)
    &&& attributes[6].trigger() == Trigger::OnAttack
    &&& attributes[6].duration_capacity() == crate::common::Capacity::spec_from_duration(2)
    &&& attributes[6].applier() == None::<ID>
    &&& attributes[7].id() == 7
    &&& attributes[7].appliable_kind() == AppliableKind::Modifier(6)
    &&& attributes[7].trigger() == Trigger::OnAttack
    &&& attributes[7].duration_capacity() == crate::common::Capacity::spec_from_duration(DURATION_PERMANENT)
    &&& attributes[7].applier() == None::<ID>
    &&& attributes[8].id() == 8
    &&& attributes[8].appliable_kind() == AppliableKind::Modifier(4)
    &&& attributes[8].trigger() == Trigger::Always
    &&& attributes[8].duration_capacity() == crate::common::Capacity::spec_from_duration(DURATION_PERMANENT)
    &&& attributes[8].applier() == None::<ID>
    &&& attributes[9].id() == 9
    &&& attributes[9].appliable_kind() == AppliableKind::Modifier(7)
    &&& attributes[9].trigger() == Trigger::OnHit
    &&& attributes[9].duration_capacity() == crate::common::Capacity::spec_from_duration(DURATION_PERMANENT)
    &&& attributes[9].applier() == None::<ID>
    &&& attributes[10].id() == 10
    &&& attributes[10].appliable_kind() == AppliableKind::Modifier(8)
    &&& attributes[10].trigger() == Trigger::OnAttack
    &&& attributes[10].duration_capacity() == crate::common::Capacity::spec_from_duration(DURATION_PERMANENT)
    &&& attributes[10].applier() == None::<ID>
}

/// Whether `terrains` are The terrains of the debug scene.
pub open spec fn is_debug_terrains(terrains: Seq<Terrain>) -> bool {
    &&& terrains.len() == 3
    &&& terrains[0].modifier() == None::<ID>
    &&& terrains[0].cost() == 1
    &&& terrains[1].modifier() == Some(3usize)
    &&& terrains[1].cost() == 2
    &&& terrains[2].modifier() == None::<ID>
    &&& terrains[2].cost() == 0
}

/// Whether `cities` are The cities of the debug scene.
pub open spec fn is_debug_cities(cities: Seq<City>) -> bool {
    &&& cities.len() == 21
    &&& cities[0].population() == 10
    &&& cities[0].factories() == 1
    &&& cities[0].farms() == 1
    &&& cities[0].recruit() == Some(1usize)
    &&& cities[0].wf()
    &&& cities[1].population() == 10
    &&& cities[1].factories() == 2
    &&& cities[1].farms() == 1
    &&& cities[1].recruit() == None::<ID>
    &&& cities[1].wf()
    &&& cities[2].population() == 10
    &&& cities[2].factories() == 1
    &&& cities[2].farms() == 2
    &&& cities[2].recruit() == Some(3usize)
    &&& cities[2].wf()
    &&& cities[3].population() == 10
    &&& cities[3].factories() == 2
    &&& cities[3].farms() == 2
    &&& cities[3].recruit() == None::<ID>
    &&& cities[3].wf()
    &&& cities[4].population() == 524
    &&& cities[4].factories() == 108
    &&& cities[4].farms() == 24
    &&& cities[4].recruit() == None::<ID>
    &&& cities[4].wf()
    &&& cities[5].population() == 41
    &&& cities[5].factories() == 2
    &&& cities[5].farms() == 14
    &&& cities[5].recruit() == None::<ID>
    &&& cities[5].wf()
    &&& cities[6].population() == 23
    &&& cities[6].factories() == 3
    &&& cities[6].farms() == 5
    &&& cities[6].recruit() == None::<ID>
    &&& cities[6].wf()
    &&& cities[7].population() == 65
    &&& cities[7].factories() == 13
    &&& cities[7].farms() == 6
    &&& cities[7].recruit() == None::<ID>
    &&& cities[7].wf()
    &&& cities[8].population() == 88
    &&& cities[8].factories() == 4
    &&& cities[8].farms() == 21
    &&& cities[8].recruit() == None::<ID>
    &&& cities[8].wf()
    &&& cities[9].population() == 156
    &&& cities[9].factories() == 27
    &&& cities[9].farms() == 18
    &&& cities[9].recruit() == None::<ID>
    &&& cities[9].wf()
    &&& cities[10].population() == 32
    &&& cities[10].factories() == 5
    &&& cities[10].farms() == 2
    &&& cities[10].recruit() == None::<ID>
    &&& cities[10].wf()
    &&& cities[11].population() == 124
    &&& cities[11].factories() == 18
    &&& cities[11].farms() == 22
    &&& cities[11].recruit() == None::<ID>
    &&& cities[11].wf()
    &&& cities[12].population() == 109
    &&& cities[12].factories() == 20
    &&& cities[12].farms() == 9
    &&& cities[12].recruit() == None::<ID>
    &&& cities[12].wf()
    &&& cities[13].population() == 37
    &&& cities[13].factories() == 2
    &&& cities[13].farms() == 8
    &&& cities[13].recruit() == None::<ID>
    &&& cities[13].wf()
    &&& cities[14].population() == 136
    &&& cities[14].factories() == 26
    &&& cities[14].farms() == 11
    &&& cities[14].recruit() == None::<ID>
    &&& cities[14].wf()
    &&& cities[15].population() == 18
    &&& cities[15].factories() == 1
    &&& cities[15].farms() == 3
    &&& cities[15].recruit() == None::<ID>
    &&& cities[15].wf()
    &&& cities[16].population() == 53
    &&& cities[16].factories() == 3
    &&& cities[16].farms() == 16
    &&& cities[16].recruit() == None::<ID>
    &&& cities[16].wf()
    &&& cities[17].population() == 203
    &&& cities[17].factories() == 35
    &&& cities[17].farms() == 14
    &&& cities[17].recruit() == None::<ID>
    &&& cities[17].wf()
    &&& cities[18].population() == 115
    &&& cities[18].factories() == 19
    &&& cities[18].farms() == 12
    &&& cities[18].recruit() == None::<ID>
    &&& cities[18].wf()
    &&& cities[19].population() == 60
    &&& cities[19].factories() == 3
    &&& cities[19].farms() == 21
    &&& cities[19].recruit() == None::<ID>
    &&& cities[19].wf()
    &&& cities[20].population() == 83
    &&& cities[20].factories() == 14
    &&& cities[20].farms() == 11
    &&& cities[20].recruit() == None::<ID>
    &&& cities[20].wf()
}

/// Whether `weapons` are The weapons of the debug scene.
pub open spec fn is_debug_weapons(weapons: Seq<Weapon>) -> bool {
    &&& weapons.len() == 3
    &&& weapons[0].id() == 0
    &&& weapons[0].statistics() == seq![20u8, 1u8, 1u8, 0u8]
    &&& weapons[0].area() == Area::Single
    &&& weapons[0].range() == 1
    &&& weapons[0].attribute_on_attack() == None::<Attribute>
    &&& weapons[1].id() == 1
    &&& weapons[1].statistics() == seq![20u8, 0u8, 2u8, 0u8]
    &&& weapons[1].area() == Area::Path(0)
    &&& weapons[1].range() == 2
    &&& weapons[1].attribute_on_attack() == None::<Attribute>
    &&& weapons[2].id() == 2
    &&& weapons[2].statistics() == seq![10u8, 1u8, 0u8, 1u8]
    &&& weapons[2].area() == Area::Radial(2)
    &&& weapons[2].range() == 2
    &&& weapons[2].attribute_on_attack() == None::<Attribute>
}

/// Whether `magics` are The magics of the debug scene.
pub open spec fn is_debug_magics(magics: Seq<Magic>) -> bool {
    &&& magics.len() == 4
    &&& magics[0].id() == 0
    &&& magics[0].attribute() == 8
    &&& magics[0].target() == Target::This
    &&& magics[0].area() == Area::Single
    &&& magics[0].range() == 0
    &&& magics[0].cost() == 10
    &&& magics[0].element() == Element::Dark
    &&& magics[1].id() == 1
    &&& magics[1].attribute() == 0
    &&& magics[1].target() == Target::This
    &&& magics[1].area() == Area::Single
    &&& magics[1].range() == 0
    &&& magics[1].cost() == 21
    &&& magics[1].element() == Element::Dark
    &&& magics[2].id() == 2
    &&& magics[2].attribute() == 6
    &&& magics[2].target() == Target::This
    &&& magics[2].area() == Area::Single
    &&& magics[2].range() == 0
    &&& magics[2].cost() == 10
    &&& magics[2].element() == Element::Matter
    &&& magics[3].id() == 3
    &&& magics[3].attribute() == 2
    &&& magics[3].target() == Target::OnMap(ID_UNINITIALISED)
    &&& magics[3].area() == Area::Radial(2)
    &&& magics[3].range() == 0
    &&& magics[3].cost() == 10
    &&& magics[3].element() == Element::Light
}

/// Whether `skills` are The skills of the debug scene.
pub open spec fn is_debug_skills(skills: Seq<Skill>) -> bool {
    &&& skills.len() == 7
    &&& skills[0].id() == 0
    &&& skills[0].appliables() == seq![AppliableKind::Attribute(5)]
    &&& skills[0].target() == Target::This
    &&& skills[0].area() == Area::Single
    &&& skills[0].range() == 0
    &&& skills[0].kind() == SkillKind::Timed(0, 2)
    &&& skills[1].id() == 1
    &&& skills[1].appliables() == seq![AppliableKind::Attribute(1)]
    &&& skills[1].target() == Target::This
    &&& skills[1].area() == Area::Single
    &&& skills[1].range() == 0
    &&& skills[1].kind() == SkillKind::Passive
    &&& skills[2].id() == 2
    &&& skills[2].appliables() == seq![AppliableKind::Attribute(0), AppliableKind::Attribute(1)]
    &&& skills[2].target() == Target::This
    &&& skills[2].area() == Area::Radial(2)
    &&& skills[2].range() == 0
    &&& skills[2].kind() == SkillKind::Toggled(0)
    &&& skills[3].id() == 3
    &&& skills[3].appliables() == seq![AppliableKind::Attribute(2)]
    &&& skills[3].target() == Target::This
    &&& skills[3].area() == Area::Radial(2)
    &&& skills[3].range() == 0
    &&& skills[3].kind() == SkillKind::Timed(1, 1)
    &&& skills[4].id() == 4
    &&& skills[4].appliables() == seq![AppliableKind::Attribute(8)]
    &&& skills[4].target() == Target::Ally
    &&& skills[4].area() == Area::Single
    &&& skills[4].range() == 0
    &&& skills[4].kind() == SkillKind::Timed(0, 2)
    &&& skills[5].id() == 5
    &&& skills[5].appliables() == seq![AppliableKind::Attribute(8)]
    &&& skills[5].target() == Target::Allies
    &&& skills[5].area() == Area::Radial(2)
    &&& skills[5].range() == 0
    &&& skills[5].kind() == SkillKind::Timed(0, 2)
    &&& skills[6].id() == 6
    &&& skills[6].appliables() == seq![AppliableKind::Attribute(8)]
    &&& skills[6].target() == Target::This
    &&& skills[6].area() == Area::Single
    &&& skills[6].range() == 0
    &&& skills[6].kind() == SkillKind::Timed(0, 2)
}

/// Whether `builders` are The faction builders of the debug scene.
pub open spec fn is_debug_faction_builders(builders: Seq<FactionBuilder>) -> bool {
    &&& builders.len() == 3
    &&& builders[0].id() == 0
    &&& builders[0].allies() == seq![2usize]
    &&& builders[1].id() == 1
    &&& builders[1].allies() == Seq::<ID>::empty()
    &&& builders[2].id() == 2
    &&& builders[2].allies() == seq![0usize]
}

/// Whether `builders` are The unit builders of the debug scene.
pub open spec fn is_debug_unit_builders(builders: Seq<UnitBuilder>) -> bool {
    &&& builders.len() == 5
    &&& builders[0].id() == 0
    &&& builders[0].statistics().wf()
    &&& builders[0].statistics() == UnitStatistics::built(1000, 1000, 1000, 20, 20, 20, 10, 1000)
    &&& builders[0].weapon_ids() == seq![0usize]
    &&& builders[0].skill_passive() == Some(1usize)
    &&& builders[0].skill_ids() == seq![0usize, 2usize, 3usize]
    &&& builders[0].magics_usable() == seq![true, true, true]
    &&& builders[0].faction() == 0
    &&& builders[0].leader() == None::<ID>
    &&& builders[1].id() == 1
    &&& builders[1].statistics().wf()
    &&& builders[1].statistics() == UnitStatistics::built(1000, 1000, 1000, 20, 20, 20, 10, 1000)
    &&& builders[1].weapon_ids() == seq![0usize]
    &&& builders[1].skill_passive() == None::<ID>
    &&& builders[1].skill_ids() == Seq::<ID>::empty()
    &&& builders[1].magics_usable() == seq![false, true, false]
    &&& builders[1].faction() == 0
    &&& builders[1].leader() == Some(ID_UNINITIALISED)
    &&& builders[2].id() == 2
    &&& builders[2].statistics().wf()
    &&& builders[2].statistics() == UnitStatistics::built(1000, 1000, 1000, 20, 20, 20, 10, 1000)
    &&& builders[2].weapon_ids() == seq![1usize, 2usize]
    &&& builders[2].skill_passive() == Some(1usize)
    &&& builders[2].skill_ids() == seq![0usize, 2usize, 3usize]
    &&& builders[2].magics_usable() == seq![false, false, false]
    &&& builders[2].faction() == 1
    &&& builders[2].leader() == None::<ID>
    &&& builders[3].id() == 3
    &&& builders[3].statistics().wf()
    &&& builders[3].statistics() == UnitStatistics::built(1000, 1000, 1000, 20, 20, 20, 10, 1000)
    &&& builders[3].weapon_ids() == seq![0usize]
    &&& builders[3].skill_passive() == Some(1usize)
    &&& builders[3].skill_ids() == seq![4usize, 5usize, 6usize]
    &&& builders[3].magics_usable() == seq![false, false, false]
    &&& builders[3].faction() == 0
    &&& builders[3].leader() == Some(ID_UNINITIALISED)
    &&& builders[4].id() == 4
    &&& builders[4].statistics().wf()
    &&& builders[4].statistics() == UnitStatistics::built(1000, 1000, 1000, 20, 20, 20, 10, 1000)
    &&& builders[4].weapon_ids() == seq![0usize]
    &&& builders[4].skill_passive() == Some(1usize)
    &&& builders[4].skill_ids() == seq![0usize, 2usize, 3usize]
    &&& builders[4].magics_usable() == seq![false, false, false]
    &&& builders[4].faction() == 2
    &&& builders[4].leader() == None::<ID>
}

/// Whether `rows` are The rows of tile builders of the debug scene.
pub open spec fn is_debug_tile_builders(rows: Seq<Seq<TileBuilder>>) -> bool {
    &&& rows.len() == 2
    &&& rows[0].len() == 3
    &&& rows[0][0].terrain() == 0
    &&& rows[0][0].height() == 0
    &&& rows[0][0].city() == Some(0usize)
    &&& rows[0][1].terrain() == 0
    &&& rows[0][1].height() == 1
    &&& rows[0][1].city() == None::<ID>
    &&& rows[0][2].terrain() == 0
    &&& rows[0][2].height() == 0
    &&& rows[0][2].city() == Some(1usize)
    &&& rows[1].len() == 3
    &&& rows[1][0].terrain() == 1
    &&& rows[1][0].height() == 2
    &&& rows[1][0].city() == Some(2usize)
    &&& rows[1][1].terrain() == 1
    &&& rows[1][1].height() == 1
    &&& rows[1][1].city() == None::<ID>
    &&& rows[1][2].terrain() == 2
    &&& rows[1][2].height() == 0
    &&& rows[1][2].city() == None::<ID>
}

/// Whether `locations` are where the units of the debug scene start.
pub open spec fn is_debug_unit_locations(locations: Seq<Option<Location>>) -> bool {
    &&& locations == seq![Some((0usize, 0usize)), None, Some((1usize, 0usize)), None, None]
}

/// Whether `scene` holds the objects, the map and the unit locations of the debug scenario.
pub open spec fn is_debug_scene(scene: Scene) -> bool {
    &&& is_debug_modifiers(scene.modifiers())
    &&& is_debug_effects(scene.effects())
    &&& is_debug_attributes(scene.attributes())
    &&& is_debug_terrains(scene.terrains())
    &&& is_debug_cities(scene.cities())
    &&& is_debug_weapons(scene.weapons())
    &&& is_debug_magics(scene.magics())
    &&& is_debug_skills(scene.skills())
    &&& is_debug_faction_builders(scene.faction_builders())
    &&& is_debug_unit_builders(scene.unit_builders())
    &&& is_debug_tile_builders(scene.tile_builders())
    &&& is_debug_unit_locations(scene.unit_locations())
}

/// The modifiers of the debug scene.
pub fn debug_modifiers() -> (modifiers: Vec<Modifier>)
    ensures
        is_debug_modifiers(modifiers@),
{
    let mut modifiers: Vec<Modifier> = Vec::new();
    modifiers.push(Modifier::new(0, ShortList::one((StatisticKind::Tile(false), 1, true)), 2, false, false, None)); // terrain_cost_+1
    modifiers.push(Modifier::new(1, ShortList::one((StatisticKind::Tile(false), 1, false)), DURATION_PERMANENT, false, false, None)); // terrain_cost_-1
    modifiers.push(Modifier::new(2, ShortList::one((StatisticKind::Tile(true), 1, false)), 1, false, false, Some(0))); // terrain_cost_=1
    modifiers.push(Modifier::new(3, ShortList::one((StatisticKind::Unit(UnitStatistic::ATK), 20, true)), 2, true, false, None)); // atk_+20
    modifiers.push(Modifier::new(4, ShortList::two((StatisticKind::Unit(UnitStatistic::ATK), 10, true), (StatisticKind::Unit(UnitStatistic::DEF), 10, false)), DURATION_PERMANENT, true, true, None)); // atk_+10_def_-10
    modifiers.push(Modifier::new(5, ShortList::one((StatisticKind::Unit(UnitStatistic::ATK), 10, false)), 1, false, false, None)); // atk_-10
    modifiers.push(Modifier::new(6, ShortList::one((StatisticKind::Unit(UnitStatistic::HLT), 2, false)), 1, false, false, Some(5))); // poison
    modifiers.push(Modifier::new(7, ShortList::one((StatisticKind::Unit(UnitStatistic::DEF), 10, false)), 1, false, false, None)); // def_-10
    modifiers.push(Modifier::new(8, ShortList::one((StatisticKind::Unit(UnitStatistic::MAG), 10, false)), 1, true, true, None)); // mag_-10
    modifiers.push(Modifier::new(9, ShortList::one((StatisticKind::Tile(true), 1, false)), 1, false, false, None)); // terrain_cost_=1
    modifiers
}

/// The effects of the debug scene.
pub fn debug_effects() -> (effects: Vec<Effect>)
    ensures
        is_debug_effects(effects@),
{
    let mut effects: Vec<Effect> = Vec::new();
    effects.push(Effect::new(0, ShortList::one((StatisticKind::Unit(UnitStatistic::HLT), 2, false)), true)); // hlt_-2
    effects.push(Effect::new(1, ShortList::two((StatisticKind::Unit(UnitStatistic::ATK), 5, true), (StatisticKind::Unit(UnitStatistic::DEF), 5, false)), false)); // atk_+5_def_-5
    effects
}

/// The attributes of the debug scene.
pub fn debug_attributes() -> (attributes: Vec<Attribute>)
    ensures
        is_debug_attributes(attributes@),
{
    let mut attributes: Vec<Attribute> = Vec::new();
    attributes.push(Attribute::new(0, AppliableKind::Modifier(3), Trigger::Always, DURATION_PERMANENT)); // atk_stack_up
    attributes.push(Attribute::new(1, AppliableKind::Modifier(5), Trigger::Always, 2)); // atk_down
    attributes.push(Attribute::new(2, AppliableKind::Modifier(6), Trigger::OnOccupy, 2)); // poison_2
    attributes.push(Attribute::new(3, AppliableKind::Modifier(1), Trigger::OnOccupy, DURATION_PERMANENT)); // terrain_cost_down_permanent
    attributes.push(Attribute::new(4, AppliableKind::Modifier(6), Trigger::OnOccupy, 2)); // poison_2
    attributes.push(Attribute::new(5, AppliableKind::Modifier(6), Trigger::OnHit, 2)); // poison_2
    attributes.push(Attribute::new(6, AppliableKind::Modifier(6), Trigger::OnAttack, 2)); // poison_2
    attributes.push(Attribute::new(7, AppliableKind::Modifier(6), Trigger::OnAttack, DURATION_PERMANENT)); // poison_permanent
    attributes.push(Attribute::new(8, AppliableKind::Modifier(4), Trigger::Always, DURATION_PERMANENT)); // atk_up_def_down
    attributes.push(Attribute::new(9, AppliableKind::Modifier(7), Trigger::OnHit, DURATION_PERMANENT)); // def_down
    attributes.push(Attribute::new(10, AppliableKind::Modifier(8), Trigger::OnAttack, DURATION_PERMANENT)); // mag_down
    attributes
}

/// The terrains of the debug scene.
pub fn debug_terrains() -> (terrains: Vec<Terrain>)
    ensures
        is_debug_terrains(terrains@),
{
    let mut terrains: Vec<Terrain> = Vec::new();
    terrains.push(Terrain::new(None, 1)); // passable_1
    terrains.push(Terrain::new(Some(3), 2)); // passable_2
    terrains.push(Terrain::new(None, 0)); // impassable
    terrains
}

/// The cities of the debug scene.
pub fn debug_cities() -> (cities: Vec<City>)
    ensures
        is_debug_cities(cities@),
{
    let mut cities: Vec<City> = Vec::new();
    cities.push(City::new(10, 1, 1, Some(1)));
    cities.push(City::new(10, 2, 1, None));
    cities.push(City::new(10, 1, 2, Some(3)));
    cities.push(City::new(10, 2, 2, None));
    cities.push(City::new(524, 108, 24, None));
    cities.push(City::new(41, 2, 14, None));
    cities.push(City::new(23, 3, 5, None));
    cities.push(City::new(65, 13, 6, None));
    cities.push(City::new(88, 4, 21, None));
    cities.push(City::new(156, 27, 18, None));
    cities.push(City::new(32, 5, 2, None));
    cities.push(City::new(124, 18, 22, None));
    cities.push(City::new(109, 20, 9, None));
    cities.push(City::new(37, 2, 8, None));
    cities.push(City::new(136, 26, 11, None));
    cities.push(City::new(18, 1, 3, None));
    cities.push(City::new(53, 3, 16, None));
    cities.push(City::new(203, 35, 14, None));
    cities.push(City::new(115, 19, 12, None));
    cities.push(City::new(60, 3, 21, None));
    cities.push(City::new(83, 14, 11, None));
    cities
}

/// The weapons of the debug scene.
pub fn debug_weapons() -> (weapons: Vec<Weapon>)
    ensures
        is_debug_weapons(weapons@),
{
    let mut weapons: Vec<Weapon> = Vec::new();
    weapons.push(Weapon::new(0, [20, 1, 1, 0], Area::Single, 1)); // single
    weapons.push(Weapon::new(1, [20, 0, 2, 0], Area::Path(0), 2)); // path
    weapons.push(Weapon::new(2, [10, 1, 0, 1], Area::Radial(2), 2)); // radial
    weapons
}

/// The magics of the debug scene.
pub fn debug_magics() -> (magics: Vec<Magic>)
    ensures
        is_debug_magics(magics@),
{
    let mut magics: Vec<Magic> = Vec::new();
    magics.push(Magic::new(0, 8, Target::This, Area::Single, 0, 10, Element::Dark));
    magics.push(Magic::new(1, 0, Target::This, Area::Single, 0, 21, Element::Dark));
    magics.push(Magic::new(2, 6, Target::This, Area::Single, 0, 10, Element::Matter));
    magics.push(Magic::new(3, 2, Target::OnMap(ID_UNINITIALISED), Area::Radial(2), 0, 10, Element::Light));
    magics
}

/// The skills of the debug scene.
pub fn debug_skills() -> (skills: Vec<Skill>)
    ensures
        is_debug_skills(skills@),
{
    let mut skills: Vec<Skill> = Vec::new();
    skills.push(Skill::new(0, ShortList::one(AppliableKind::Attribute(5)), Target::This, Area::Single, 0, SkillKind::Timed(0, 2)));
    skills.push(Skill::new(1, ShortList::one(AppliableKind::Attribute(1)), Target::This, Area::Single, 0, SkillKind::Passive));
    skills.push(Skill::new(2, ShortList::two(AppliableKind::Attribute(0), AppliableKind::Attribute(1)), Target::This, Area::Radial(2), 0, SkillKind::Toggled(0)));
    skills.push(Skill::new(3, ShortList::one(AppliableKind::Attribute(2)), Target::This, Area::Radial(2), 0, SkillKind::Timed(1, 1)));
    skills.push(Skill::new(4, ShortList::one(AppliableKind::Attribute(8)), Target::Ally, Area::Single, 0, SkillKind::Timed(0, 2)));
    skills.push(Skill::new(5, ShortList::one(AppliableKind::Attribute(8)), Target::Allies, Area::Radial(2), 0, SkillKind::Timed(0, 2)));
    skills.push(Skill::new(6, ShortList::one(AppliableKind::Attribute(8)), Target::This, Area::Single, 0, SkillKind::Timed(0, 2)));
    skills
}

/// The faction builders of the debug scene.
pub fn debug_faction_builders() -> (builders: Vec<FactionBuilder>)
    ensures
        is_debug_faction_builders(builders@),
{
    let mut builders: Vec<FactionBuilder> = Vec::new();
    builders.push(FactionBuilder::new(0, vec![2]));
    builders.push(FactionBuilder::new(1, vec![]));
    builders.push(FactionBuilder::new(2, vec![0]));
    proof {
        assert(builders@[0].allies() =~= seq![2usize]);
        assert(builders@[1].allies() =~= Seq::<ID>::empty());
        assert(builders@[2].allies() =~= seq![0usize]);
    }
    builders
}

/// The unit builders of the debug scene.
pub fn debug_unit_builders() -> (builders: Vec<UnitBuilder>)
    ensures
        is_debug_unit_builders(builders@),
{
    let mut builders: Vec<UnitBuilder> = Vec::new();
    builders.push(UnitBuilder::new(0, UnitStatistics::new(1000, 1000, 1000, 20, 20, 20, 10, 1000), vec![0], Some(1), vec![0, 2, 3], [true, true, true], 0, None));
    builders.push(UnitBuilder::new(1, UnitStatistics::new(1000, 1000, 1000, 20, 20, 20, 10, 1000), vec![0], None, vec![], [false, true, false], 0, Some(ID_UNINITIALISED)));
    builders.push(UnitBuilder::new(2, UnitStatistics::new(1000, 1000, 1000, 20, 20, 20, 10, 1000), vec![1, 2], Some(1), vec![0, 2, 3], [false, false, false], 1, None));
    builders.push(UnitBuilder::new(3, UnitStatistics::new(1000, 1000, 1000, 20, 20, 20, 10, 1000), vec![0], Some(1), vec![4, 5, 6], [false, false, false], 0, Some(ID_UNINITIALISED)));
    builders.push(UnitBuilder::new(4, UnitStatistics::new(1000, 1000, 1000, 20, 20, 20, 10, 1000), vec![0], Some(1), vec![0, 2, 3], [false, false, false], 2, None));
    proof {
        assert(builders@[0].weapon_ids() =~= seq![0usize]);
        assert(builders@[0].skill_ids() =~= seq![0usize, 2usize, 3usize]);
        assert(builders@[0].magics_usable() =~= seq![true, true, true]);
        assert(builders@[1].weapon_ids() =~= seq![0usize]);
        assert(builders@[1].skill_ids() =~= Seq::<ID>::empty());
        assert(builders@[1].magics_usable() =~= seq![false, true, false]);
        assert(builders@[2].weapon_ids() =~= seq![1usize, 2usize]);
        assert(builders@[2].skill_ids() =~= seq![0usize, 2usize, 3usize]);
        assert(builders@[2].magics_usable() =~= seq![false, false, false]);
        assert(builders@[3].weapon_ids() =~= seq![0usize]);
        assert(builders@[3].skill_ids() =~= seq![4usize, 5usize, 6usize]);
        assert(builders@[3].magics_usable() =~= seq![false, false, false]);
        assert(builders@[4].weapon_ids() =~= seq![0usize]);
        assert(builders@[4].skill_ids() =~= seq![0usize, 2usize, 3usize]);
        assert(builders@[4].magics_usable() =~= seq![false, false, false]);
    }
    builders
}

/// The rows of tile builders of the debug scene.
pub fn debug_tile_builders() -> (rows: Vec<Vec<TileBuilder>>)
    ensures
        is_debug_tile_builders(rows@.map_values(|row: Vec<TileBuilder>| row@)),
{
    let mut rows: Vec<Vec<TileBuilder>> = Vec::new();
    let mut row_0: Vec<TileBuilder> = Vec::new();
    row_0.push(TileBuilder::new(0, 0, Some(0)));
    row_0.push(TileBuilder::new(0, 1, None));
    row_0.push(TileBuilder::new(0, 0, Some(1)));
    rows.push(row_0);
    let mut row_1: Vec<TileBuilder> = Vec::new();
    row_1.push(TileBuilder::new(1, 2, Some(2)));
    row_1.push(TileBuilder::new(1, 1, None));
    row_1.push(TileBuilder::new(2, 0, None));
    rows.push(row_1);
    rows
}

/// Where the units of the debug scene start.
pub fn debug_unit_locations() -> (locations: Vec<Option<Location>>)
    ensures
        is_debug_unit_locations(locations@),
{
    let mut locations: Vec<Option<Location>> = Vec::new();
    locations.push(Some((0, 0)));
    locations.push(None);
    locations.push(Some((1, 0)));
    locations.push(None);
    locations.push(None);
    proof {
        assert(locations@ =~= seq![Some((0usize, 0usize)), None, Some((1usize, 0usize)), None, None]);
    }
    locations
}

} // verus!
