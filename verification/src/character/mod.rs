use vstd::prelude::*;
use crate::dynamic::Applier;
use crate::map::Area;

mod faction;
pub use self::faction::{Faction, FactionBuilder, leader_of, members_of, follows_last, follower_leaders, leaders_of,
    law_follower_added, law_follower_removed, distinct_ids, law_faction_members, law_faction_followers};
mod magic;
pub use self::magic::{Element, Magic};
mod skill;
pub use self::skill::{Skill, SkillKind, switched, law_switch_steps, law_switch_round_trip};
mod unit;
pub use self::unit::{
    UnitStatistic, UnitStatistics, UnitBuilder, percentage_amount, flat_changed, PERCENT_1, PERCENT_100, MRL_MAX,
    HLT_MAX, SPL_MAX, ATK_MAX, DEF_MAX, MAG_MAX, MOV_MAX, ORG_MAX, DRAIN_SPL, DRAIN_SPL_SKILL, DRAIN_SPL_MAGIC,
    DRAIN_SPL_WAIT, RECOVER_MRL, DRAIN_HLT, THRESHOLD_RETREAT_MRL, THRESHOLD_ROUT_MRL, FACTOR_FIGHT, FACTOR_RETREAT,
    FACTOR_ROUT, THRESHOLD_SKILL_PASSIVE, Unit, UnitState, adjustment_applied, adjustments_applied, is_constant,
    adjustment_reverted, adjustments_reverted, touches_unit, is_constant_adjustment, touches_constant, lives,
    adjustments_ok, usable_magic_ids, has_modifier, modifier_position, attribute_position, swap_removed,
    modifiers_survived, modifiers_succeeding, attributes_survived, skill_decremented, weapon_decremented,
    modifiers_repeated, skill_attribute_id, toggled_attributes, inactive_attributes, attack_drain, passive_threshold,
    magic_drain_hlt, magic_drain_org, manpower_total, equipment_total, skill_position, skill_used, actionable_ids,
    law_rout_implies_retreat, law_flat_change_undone, law_flat_change_bounded, law_percentage_whole, law_defeat_factor,
    law_percentage_undone, law_modifier_added_removed, law_modifier_stacking, law_damage_weapon_roles,
    law_magic_drain_manpower, law_magic_drain_cohesion, law_attack_drain,
};
mod weapon;
pub use self::weapon::{Weapon, WeaponStatistic, WeaponStatistics};

verus! {

/// A weapon, skill or magic: an applier with an area of effect and a range.
pub trait Tool: Applier {
    /// Gets the area of effect.
    fn get_area(&self) -> Area;

    /// Gets the range.
    fn get_range(&self) -> u8;
}

} // verus!
