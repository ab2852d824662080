use vstd::prelude::*;
use super::{Element, Magic, Skill, SkillKind, Weapon, WeaponStatistic};
use crate::map::equipment_of;
use crate::common::{Capacity, ID, Scene, ShortList, Target, Timed, share_scene};
use crate::dynamic::{Adjustment, Appliable, AppliableBox, AppliableKind, Applier, Attribute, Dynamic, Effect, Modifier, StatisticKind, Trigger, adjustment_ok};
use std::rc::Rc;

verus! {

/// Tenths of a percent: one percent.
pub const PERCENT_1: u16 = 10;
/// Tenths of a percent: a hundred percent.
pub const PERCENT_100: u16 = 1000;
/// Maximum morale: 100.0%.
pub const MRL_MAX: u16 = 1000;
/// Maximum manpower.
pub const HLT_MAX: u16 = 1000;
/// Maximum supply: 100.0%.
pub const SPL_MAX: u16 = 1000;
/// Maximum attack.
pub const ATK_MAX: u16 = 200;
/// Maximum defence.
pub const DEF_MAX: u16 = 200;
/// Maximum magic.
pub const MAG_MAX: u16 = 200;
/// Maximum manoeuvre.
pub const MOV_MAX: u16 = 100;
/// Maximum cohesion: 200.0%.
pub const ORG_MAX: u16 = 2000;
/// Supply drained by an attack at full cohesion: 5.0%.
pub const DRAIN_SPL: u16 = 50;
/// Supply drained by a skill: 5.0% times 1.4.
pub const DRAIN_SPL_SKILL: u16 = 70;
/// Supply drained by a magic: 5.0% times 1.4.
pub const DRAIN_SPL_MAGIC: u16 = 70;
/// Supply drained by waiting: 5.0% times 0.67.
pub const DRAIN_SPL_WAIT: u16 = 33;
/// Morale recovered at the end of a turn: 5.0%.
pub const RECOVER_MRL: u16 = 50;
/// Manpower drained per point of magic cost.
pub const DRAIN_HLT: u16 = 4;
/// Below this morale a unit retreats: 40.0%.
pub const THRESHOLD_RETREAT_MRL: u16 = 400;
/// Below this morale a unit routs: 20.0%.
pub const THRESHOLD_ROUT_MRL: u16 = 200;
/// Damage factor against a fighting unit.
pub const FACTOR_FIGHT: u16 = 1;
/// Damage factor against a retreating unit.
pub const FACTOR_RETREAT: u16 = 2;
/// Damage factor against a routing unit.
pub const FACTOR_ROUT: u16 = 4;
/// Distance to its leader within which a follower keeps the leader's passive, at full cohesion.
pub const THRESHOLD_SKILL_PASSIVE: usize = 1;

/// A statistic of a unit.
#[derive(Debug, Clone, Copy, PartialEq, Eq, Structural)]
pub enum UnitStatistic {
    /// morale - willingness to fight (permillage)
    MRL,
    /// manpower - number of soldiers
    HLT,
    /// supply - proportion of soldiers equipped (permillage)
    SPL,
    /// attack - physical damage
    ATK,
    /// defence - physical resistance
    DEF,
    /// magic - magical damage and resistance
    MAG,
    /// manoeuvre - speed and movement
    MOV,
    /// cohesion - modifier for physical damage, resistance, and leader passive (permillage)
    ORG,
    Length,
}

impl UnitStatistic {
    /// The position of the statistic in a unit's statistics.
    pub open spec fn index(self) -> int {
        match self {
            UnitStatistic::MRL => 0,
            UnitStatistic::HLT => 1,
            UnitStatistic::SPL => 2,
            UnitStatistic::ATK => 3,
            UnitStatistic::DEF => 4,
            UnitStatistic::MAG => 5,
            UnitStatistic::MOV => 6,
            UnitStatistic::ORG => 7,
            UnitStatistic::Length => 8,
        }
    }

    /// The largest value of the statistic.
    pub open spec fn maximum(self) -> u16 {
        match self {
            UnitStatistic::MRL => MRL_MAX,
            UnitStatistic::HLT => HLT_MAX,
            UnitStatistic::SPL => SPL_MAX,
            UnitStatistic::ATK => ATK_MAX,
            UnitStatistic::DEF => DEF_MAX,
            UnitStatistic::MAG => MAG_MAX,
            UnitStatistic::MOV => MOV_MAX,
            UnitStatistic::ORG => ORG_MAX,
            UnitStatistic::Length => 0,
        }
    }

    /// Whether the statistic is a quantity (morale, manpower, supply) rather than a constant.
    pub open spec fn is_quantity(self) -> bool {
        self == UnitStatistic::MRL || self == UnitStatistic::HLT || self == UnitStatistic::SPL
    }

    fn position(self) -> (index: usize)
        requires
            self != UnitStatistic::Length,
        ensures
            index == self.index(),
    {
        match self {
            UnitStatistic::MRL => 0,
            UnitStatistic::HLT => 1,
            UnitStatistic::SPL => 2,
            UnitStatistic::ATK => 3,
            UnitStatistic::DEF => 4,
            UnitStatistic::MAG => 5,
            UnitStatistic::MOV => 6,
            UnitStatistic::ORG => 7,
            UnitStatistic::Length => 8,
        }
    }
}

/// The amount of a percentage change of `base`: `change` percent of it, rounded down,
/// and at most the largest `u16`.
pub open spec fn percentage_amount(base: u16, change: u16) -> u16 {
    let amount = (base as int) * (change as int) / 100;
    if amount > 65535 { 65535u16 } else { amount as u16 }
}

/// The value of a statistic after a flat change: added up to the maximum, or subtracted down to zero.
pub open spec fn flat_changed(current: u16, maximum: u16, change: u16, is_add: bool) -> u16 {
    if is_add {
        if current + change < maximum { (current + change) as u16 } else { maximum }
    } else {
        if current >= change { (current - change) as u16 } else { 0u16 }
    }
}

/// The statistics of a unit, indexed by `UnitStatistic::index`.
#[derive(Debug, Clone, Copy)]
pub struct UnitStatistics([Capacity; 8]);

impl UnitStatistics {
    /// The capacity of a statistic.
    pub closed spec fn capacity(&self, statistic: UnitStatistic) -> Capacity {
        self.0@[statistic.index()]
    }

    /// The current value of a statistic.
    pub open spec fn value(&self, statistic: UnitStatistic) -> u16 {
        self.capacity(statistic).current()
    }

    /// What `get_statistic` reports: the current value and the base (a constant) or maximum (a quantity).
    pub open spec fn reported(&self, statistic: UnitStatistic) -> (u16, u16) {
        match self.capacity(statistic) {
            Capacity::Constant(c, _, b) => (c, b),
            Capacity::Quantity(c, m) => (c, m),
        }
    }

    /// Whether the statistics are consistent: morale, manpower and supply are quantities,
    /// the others constants, each with its maximum, and no value above its maximum.
    pub open spec fn wf(&self) -> bool {
        forall|s: UnitStatistic| s != UnitStatistic::Length ==> #[trigger] self.statistic_wf(s)
    }

    /// Whether one statistic is consistent.
    pub open spec fn statistic_wf(&self, s: UnitStatistic) -> bool {
        &&& (self.capacity(s) is Quantity <==> s.is_quantity())
        &&& self.capacity(s).maximum() == s.maximum()
        &&& self.capacity(s).current() <= self.capacity(s).maximum()
        &&& self.capacity(s).base() <= s.maximum()
    }

    /// Whether `other` equals these statistics except for the current value of `statistic`, which is `value`.
    pub open spec fn is_set(&self, other: UnitStatistics, statistic: UnitStatistic, value: u16) -> bool {
        &&& other.capacity(statistic) == match self.capacity(statistic) {
            Capacity::Constant(_, m, b) => Capacity::Constant(value, m, b),
            Capacity::Quantity(_, m) => Capacity::Quantity(value, m),
        }
        &&& forall|s: UnitStatistic| s != statistic && s != UnitStatistic::Length
            ==> #[trigger] other.capacity(s) == self.capacity(s)
    }

    /// These statistics with the current value of `statistic` set to `value`.
    pub closed spec fn with_value(self, statistic: UnitStatistic, value: u16) -> UnitStatistics {
        UnitStatistics(
            vstd::array::spec_array_update(
                self.0,
                statistic.index(),
                match self.capacity(statistic) {
                    Capacity::Constant(_, m, b) => Capacity::Constant(value, m, b),
                    Capacity::Quantity(_, m) => Capacity::Quantity(value, m),
                },
            ),
        )
    }

    /// These statistics after a flat change of `statistic`.
    pub open spec fn changed(self, statistic: UnitStatistic, change: u16, is_add: bool) -> UnitStatistics {
        self.with_value(statistic, flat_changed(self.value(statistic), statistic.maximum(), change, is_add))
    }

    /// These statistics after a percentage change of `statistic`.
    pub open spec fn percent_changed(self, statistic: UnitStatistic, change: u16, is_add: bool) -> UnitStatistics {
        self.changed(statistic, percentage_amount(self.capacity(statistic).base(), change), is_add)
    }

    /// Setting a value changes that statistic's current value alone and keeps the statistics
    /// consistent when the value is within the maximum.
    pub proof fn lemma_with_value(self, statistic: UnitStatistic, value: u16)
        requires
            statistic != UnitStatistic::Length,
        ensures
            self.is_set(self.with_value(statistic, value), statistic, value),
            self.wf() && value <= statistic.maximum() ==> self.with_value(statistic, value).wf(),
            self.with_value(statistic, value).value(statistic) == value,
            forall|s: UnitStatistic| s != statistic && s != UnitStatistic::Length
                ==> #[trigger] self.with_value(statistic, value).capacity(s) == self.capacity(s),
            self.with_value(statistic, value).capacity(statistic).base() == self.capacity(statistic).base(),
    {
        broadcast use vstd::array::axiom_spec_array_update;
        let other = self.with_value(statistic, value);
        assert forall|s: UnitStatistic| s != statistic && s != UnitStatistic::Length implies #[trigger] other.capacity(s) == self.capacity(s) by {
            assert(s.index() != statistic.index());
        }
        if self.wf() && value <= statistic.maximum() {
            assert forall|s: UnitStatistic| s != UnitStatistic::Length implies #[trigger] other.statistic_wf(s) by {
                assert(self.statistic_wf(s));
            }
        }
    }

    /// Statistics that agree with a value set are those values set.
    pub proof fn lemma_is_set(self, other: UnitStatistics, statistic: UnitStatistic, value: u16)
        requires
            statistic != UnitStatistic::Length,
            self.is_set(other, statistic, value),
        ensures
            other == self.with_value(statistic, value),
    {
        broadcast use vstd::array::axiom_spec_array_update;
        broadcast use vstd::array::axiom_array_ext_equal;
        let expected = self.with_value(statistic, value);
        assert forall|i: int| 0 <= i < 8 implies other.0[i] == expected.0[i] by {
            let s = if i == 0 {
                UnitStatistic::MRL
            } else if i == 1 {
                UnitStatistic::HLT
            } else if i == 2 {
                UnitStatistic::SPL
            } else if i == 3 {
                UnitStatistic::ATK
            } else if i == 4 {
                UnitStatistic::DEF
            } else if i == 5 {
                UnitStatistic::MAG
            } else if i == 6 {
                UnitStatistic::MOV
            } else {
                UnitStatistic::ORG
            };
            assert(s.index() == i);
            if s != statistic {
                assert(other.capacity(s) == self.capacity(s));
            }
        }
        assert(other.0 =~= expected.0);
    }

    /// The statistics that `new` creates.
    pub closed spec fn built(mrl: u16, hlt: u16, spl: u16, atk: u16, def: u16, mag: u16, mov: u16, org: u16) -> UnitStatistics {
        UnitStatistics(
            [
                Capacity::Quantity(mrl, MRL_MAX),
                Capacity::Quantity(hlt, HLT_MAX),
                Capacity::Quantity(spl, SPL_MAX),
                Capacity::Constant(atk, ATK_MAX, atk),
                Capacity::Constant(def, DEF_MAX, def),
                Capacity::Constant(mag, MAG_MAX, mag),
                Capacity::Constant(mov, MOV_MAX, mov),
                Capacity::Constant(org, ORG_MAX, org),
            ],
        )
    }

    /// The statistics that `new` creates hold the given values: morale, manpower and supply as
    /// quantities up to their maxima, the others as constants whose base is their value.
    pub proof fn lemma_built(mrl: u16, hlt: u16, spl: u16, atk: u16, def: u16, mag: u16, mov: u16, org: u16)
        ensures
            UnitStatistics::built(mrl, hlt, spl, atk, def, mag, mov, org).capacity(UnitStatistic::MRL) == Capacity::Quantity(mrl, MRL_MAX),
            UnitStatistics::built(mrl, hlt, spl, atk, def, mag, mov, org).capacity(UnitStatistic::HLT) == Capacity::Quantity(hlt, HLT_MAX),
            UnitStatistics::built(mrl, hlt, spl, atk, def, mag, mov, org).capacity(UnitStatistic::SPL) == Capacity::Quantity(spl, SPL_MAX),
            UnitStatistics::built(mrl, hlt, spl, atk, def, mag, mov, org).capacity(UnitStatistic::ATK) == Capacity::Constant(atk, ATK_MAX, atk),
            UnitStatistics::built(mrl, hlt, spl, atk, def, mag, mov, org).capacity(UnitStatistic::DEF) == Capacity::Constant(def, DEF_MAX, def),
            UnitStatistics::built(mrl, hlt, spl, atk, def, mag, mov, org).capacity(UnitStatistic::MAG) == Capacity::Constant(mag, MAG_MAX, mag),
            UnitStatistics::built(mrl, hlt, spl, atk, def, mag, mov, org).capacity(UnitStatistic::MOV) == Capacity::Constant(mov, MOV_MAX, mov),
            UnitStatistics::built(mrl, hlt, spl, atk, def, mag, mov, org).capacity(UnitStatistic::ORG) == Capacity::Constant(org, ORG_MAX, org),
    {
    }

    /// Creates statistics: morale, manpower and supply are quantities, the others constants
    /// whose base is their starting value.
    pub fn new(mrl: u16, hlt: u16, spl: u16, atk: u16, def: u16, mag: u16, mov: u16, org: u16) -> (statistics: Self)
        requires
            mrl <= MRL_MAX,
            hlt <= HLT_MAX,
            spl <= SPL_MAX,
            atk <= ATK_MAX,
            def <= DEF_MAX,
            mag <= MAG_MAX,
            mov <= MOV_MAX,
            org <= ORG_MAX,
        ensures
            statistics.wf(),
            statistics == UnitStatistics::built(mrl, hlt, spl, atk, def, mag, mov, org),
            statistics.capacity(UnitStatistic::MRL) == Capacity::Quantity(mrl, MRL_MAX),
            statistics.capacity(UnitStatistic::HLT) == Capacity::Quantity(hlt, HLT_MAX),
            statistics.capacity(UnitStatistic::SPL) == Capacity::Quantity(spl, SPL_MAX),
            statistics.capacity(UnitStatistic::ATK) == Capacity::Constant(atk, ATK_MAX, atk),
            statistics.capacity(UnitStatistic::DEF) == Capacity::Constant(def, DEF_MAX, def),
            statistics.capacity(UnitStatistic::MAG) == Capacity::Constant(mag, MAG_MAX, mag),
            statistics.capacity(UnitStatistic::MOV) == Capacity::Constant(mov, MOV_MAX, mov),
            statistics.capacity(UnitStatistic::ORG) == Capacity::Constant(org, ORG_MAX, org),
    {
        let statistics: [Capacity; 8] = [
            Capacity::Quantity(mrl, MRL_MAX),
            Capacity::Quantity(hlt, HLT_MAX),
            Capacity::Quantity(spl, SPL_MAX),
            Capacity::Constant(atk, ATK_MAX, atk),
            Capacity::Constant(def, DEF_MAX, def),
            Capacity::Constant(mag, MAG_MAX, mag),
            Capacity::Constant(mov, MOV_MAX, mov),
            Capacity::Constant(org, ORG_MAX, org),
        ];
        let result = Self(statistics);
        assert forall|s: UnitStatistic| s != UnitStatistic::Length implies #[trigger] result.statistic_wf(s) by {
        }
        result
    }

    /// Gets a statistic: its current value, and its base (a constant) or maximum (a quantity).
    fn get_statistic(&self, statistic: UnitStatistic) -> (reported: (u16, u16))
        requires
            self.wf(),
            statistic != UnitStatistic::Length,
        ensures
            reported == self.reported(statistic),
    {
        match self.0[statistic.position()] {
            Capacity::Constant(c, _, b) => (c, b),
            Capacity::Quantity(c, m) => (c, m),
        }
    }

    /// Sets the current value of a statistic.
    fn set_statistic(&mut self, statistic: UnitStatistic, value: u16)
        requires
            old(self).wf(),
            statistic != UnitStatistic::Length,
            value <= statistic.maximum(),
        ensures
            final(self).wf(),
            old(self).is_set(*final(self), statistic, value),
    {
        let index: usize = statistic.position();
        let capacity: Capacity = match self.0[index] {
            Capacity::Constant(_, m, b) => Capacity::Constant(value, m, b),
            Capacity::Quantity(_, m) => Capacity::Quantity(value, m),
        };

        proof {
            assert(old(self).statistic_wf(statistic));
        }
        self.0[index] = capacity;

        proof {
            assert(self.statistic_wf(statistic));
            assert forall|s: UnitStatistic| s != statistic && s != UnitStatistic::Length implies #[trigger] self.capacity(s) == old(self).capacity(s) by {
            }
            assert forall|s: UnitStatistic| s != UnitStatistic::Length implies #[trigger] self.statistic_wf(s) by {
                if s != statistic {
                    assert(old(self).statistic_wf(s));
                }
            }
        }
    }

    /// Changes a statistic by a flat amount: added up to its maximum, or subtracted down to zero.
    fn change_statistic_flat(&mut self, statistic: UnitStatistic, change: u16, is_add: bool)
        requires
            old(self).wf(),
            statistic != UnitStatistic::Length,
            is_add ==> old(self).value(statistic) + change <= 65535,
        ensures
            final(self).wf(),
            *final(self) == old(self).changed(statistic, change, is_add),
    {
        let index: usize = statistic.position();
        let (current, maximum): (u16, u16) = match self.0[index] {
            Capacity::Constant(c, m, _) => (c, m),
            Capacity::Quantity(c, m) => (c, m),
        };

        proof {
            assert(self.statistic_wf(statistic));
        }

        let value: u16 = if is_add {
            if current + change < maximum {
                current + change
            } else {
                maximum
            }
        } else {
            current.saturating_sub(change)
        };

        self.set_statistic(statistic, value);
        proof {
            old(self).lemma_is_set(*self, statistic, value);
        }
    }

    /// Changes a statistic by a percentage of its base (a constant) or maximum (a quantity).
    fn change_statistic_percentage(&mut self, statistic: UnitStatistic, change: u16, is_add: bool)
        requires
            old(self).wf(),
            statistic != UnitStatistic::Length,
            is_add ==> old(self).value(statistic) + percentage_amount(old(self).capacity(statistic).base(), change) <= 65535,
        ensures
            final(self).wf(),
            *final(self) == old(self).percent_changed(statistic, change, is_add),
    {
        let index: usize = statistic.position();
        let base: u16 = match self.0[index] {
            Capacity::Constant(_, _, b) => b,
            Capacity::Quantity(_, m) => m,
        };
        assert((base as u32) * (change as u32) <= 65535 * 65535) by (nonlinear_arith)
            requires
                base <= 65535,
                change <= 65535,
        ;
        let amount: u32 = (base as u32) * (change as u32) / 100;
        let change: u16 = if amount > 65535 {
            65535
        } else {
            amount as u16
        };

        self.change_statistic_flat(statistic, change, is_add);
    }

    /// Whether the unit retreats: its morale is below 40.0%.
    pub open spec fn retreats(&self) -> bool {
        self.value(UnitStatistic::MRL) < THRESHOLD_RETREAT_MRL
    }

    /// Whether the unit routs: its morale is below 20.0%.
    pub open spec fn routs(&self) -> bool {
        self.value(UnitStatistic::MRL) < THRESHOLD_ROUT_MRL
    }

    /// Gets whether the unit retreats.
    pub fn is_retreat(&self) -> (is_retreat: bool)
        requires
            self.wf(),
        ensures
            is_retreat == self.retreats(),
    {
        let mrl: u16 = self.get_statistic(UnitStatistic::MRL).0;

        mrl < THRESHOLD_RETREAT_MRL
    }

    /// Gets whether the unit routs.
    pub fn is_rout(&self) -> (is_rout: bool)
        requires
            self.wf(),
        ensures
            is_rout == self.routs(),
    {
        let mrl: u16 = self.get_statistic(UnitStatistic::MRL).0;

        mrl < THRESHOLD_ROUT_MRL
    }

    /// The physical damage an attack with `weapon` deals before armour: attack plus the
    /// weapon's damage, scaled by the attacker's supply and by the sum of the defender's lost
    /// morale, the attacker's manpower and cohesion (each a fraction of a hundred percent) and
    /// the weapon's decay; rounded down, and at most the largest `u16`.
    pub open spec fn weapon_damage(attacker: UnitStatistics, defender: UnitStatistics, weapon: Weapon) -> int {
        let strength = attacker.value(UnitStatistic::ATK) + weapon.statistic(WeaponStatistic::DMG);
        let factor = (PERCENT_100 - defender.value(UnitStatistic::MRL)) + attacker.value(UnitStatistic::HLT)
            + attacker.value(UnitStatistic::ORG) + PERCENT_100 * weapon.statistic(WeaponStatistic::DCY);
        let raw = strength * attacker.value(UnitStatistic::SPL) * factor / (PERCENT_100 * PERCENT_100);
        if raw > 65535 { 65535 } else { raw }
    }

    /// What armour takes off: the defender's defence times the sum of its supply and cohesion
    /// (fractions of a hundred percent), divided by one more than the weapon's piercing; rounded down.
    pub open spec fn armour(defender: UnitStatistics, weapon: Weapon) -> int {
        defender.value(UnitStatistic::DEF) * (defender.value(UnitStatistic::SPL) + defender.value(UnitStatistic::ORG))
            / (PERCENT_100 * (weapon.statistic(WeaponStatistic::PRC) + 1))
    }

    /// The physical damage that gets through armour, never below zero.
    pub open spec fn base_damage(attacker: UnitStatistics, defender: UnitStatistics, weapon: Weapon) -> int {
        let weapon_damage = UnitStatistics::weapon_damage(attacker, defender, weapon);
        let armour = UnitStatistics::armour(defender, weapon);
        if weapon_damage > armour { weapon_damage - armour } else { 0 }
    }

    /// The magical damage: the attacker's magic plus twice the weapon's decay plus one, less
    /// the defender's magic (at least one), times twice the decay plus one.
    pub open spec fn magic_damage(attacker: UnitStatistics, defender: UnitStatistics, weapon: Weapon) -> int {
        let add = weapon.statistic(WeaponStatistic::DCY) * 2 + 1;
        let strength = attacker.value(UnitStatistic::MAG) + add;
        let damage = if strength > defender.value(UnitStatistic::MAG) { strength - defender.value(UnitStatistic::MAG) } else { 1 };
        damage * add
    }

    /// How much more a defeated defender takes: twice when it retreats, four times when it
    /// routs (which a retreating unit does first), else once.
    pub open spec fn defeat_factor(defender: UnitStatistics) -> int {
        if defender.retreats() {
            FACTOR_RETREAT as int
        } else if defender.routs() {
            FACTOR_ROUT as int
        } else {
            FACTOR_FIGHT as int
        }
    }

    /// The damage to morale, manpower and supply of an attack with `weapon`.
    pub open spec fn damage(attacker: UnitStatistics, defender: UnitStatistics, weapon: Weapon) -> (int, int, int) {
        let base = UnitStatistics::base_damage(attacker, defender, weapon);
        let magic = UnitStatistics::magic_damage(attacker, defender, weapon);
        let factor = UnitStatistics::defeat_factor(defender);
        (
            base * (weapon.statistic(WeaponStatistic::PRC) + 1) + magic * (weapon.statistic(WeaponStatistic::DCY) + 1),
            (base * (weapon.statistic(WeaponStatistic::SLH) + 1) + magic) * factor,
            (base + magic) * factor,
        )
    }

    /// Whether each damage of an attack fits in a `u16`.
    pub open spec fn damage_fits(attacker: UnitStatistics, defender: UnitStatistics, weapon: Weapon) -> bool {
        let damage = UnitStatistics::damage(attacker, defender, weapon);
        &&& damage.0 <= 65535
        &&& damage.1 <= 65535
        &&& damage.2 <= 65535
    }

    /// Calculates the damage an attack with `weapon` deals to morale, manpower and supply.
    pub fn calculate_damage(attacker: &Self, defender: &Self, weapon: &Weapon) -> (damage: (u16, u16, u16))
        requires
            attacker.wf(),
            defender.wf(),
            UnitStatistics::damage_fits(*attacker, *defender, *weapon),
        ensures
            damage.0 == UnitStatistics::damage(*attacker, *defender, *weapon).0,
            damage.1 == UnitStatistics::damage(*attacker, *defender, *weapon).1,
            damage.2 == UnitStatistics::damage(*attacker, *defender, *weapon).2,
    {
        let dmg_weapon: u64 = weapon.get_statistic(WeaponStatistic::DMG) as u64;
        let slh_weapon: u64 = weapon.get_statistic(WeaponStatistic::SLH) as u64;
        let prc_weapon: u64 = weapon.get_statistic(WeaponStatistic::PRC) as u64;
        let dcy_weapon: u64 = weapon.get_statistic(WeaponStatistic::DCY) as u64;

        let hlt_attacker: u64 = attacker.get_statistic(UnitStatistic::HLT).0 as u64;
        let spl_attacker: u64 = attacker.get_statistic(UnitStatistic::SPL).0 as u64;
        let atk_attacker: u64 = attacker.get_statistic(UnitStatistic::ATK).0 as u64;
        let mag_attacker: u64 = attacker.get_statistic(UnitStatistic::MAG).0 as u64;
        let org_attacker: u64 = attacker.get_statistic(UnitStatistic::ORG).0 as u64;

        let mrl_defender: u64 = defender.get_statistic(UnitStatistic::MRL).0 as u64;
        let spl_defender: u64 = defender.get_statistic(UnitStatistic::SPL).0 as u64;
        let def_defender: u64 = defender.get_statistic(UnitStatistic::DEF).0 as u64;
        let mag_defender: u64 = defender.get_statistic(UnitStatistic::MAG).0 as u64;
        let org_defender: u64 = defender.get_statistic(UnitStatistic::ORG).0 as u64;

        proof {
            assert(attacker.statistic_wf(UnitStatistic::HLT));
            assert(attacker.statistic_wf(UnitStatistic::SPL));
            assert(attacker.statistic_wf(UnitStatistic::ATK));
            assert(attacker.statistic_wf(UnitStatistic::MAG));
            assert(attacker.statistic_wf(UnitStatistic::ORG));
            assert(defender.statistic_wf(UnitStatistic::MRL));
            assert(defender.statistic_wf(UnitStatistic::SPL));
            assert(defender.statistic_wf(UnitStatistic::DEF));
            assert(defender.statistic_wf(UnitStatistic::MAG));
            assert(defender.statistic_wf(UnitStatistic::ORG));
        }

        let strength: u64 = atk_attacker + dmg_weapon;
        let factor: u64 = (1000 - mrl_defender) + hlt_attacker + org_attacker + 1000 * dcy_weapon;
        assert(strength * spl_attacker <= 455 * 1000) by (nonlinear_arith)
            requires strength <= 455, spl_attacker <= 1000;
        let supplied: u64 = strength * spl_attacker;
        assert(supplied * factor <= 455000 * 259000) by (nonlinear_arith)
            requires supplied <= 455000, factor <= 259000;
        let raw: u64 = supplied * factor / 1_000_000;
        let damage_weapon: u64 = if raw > 65535 { 65535 } else { raw };

        assert(def_defender * (spl_defender + org_defender) <= 200 * 3000) by (nonlinear_arith)
            requires def_defender <= 200, spl_defender + org_defender <= 3000;
        let minus: u64 = def_defender * (spl_defender + org_defender) / (1000 * (prc_weapon + 1));
        let damage_base: u64 = if damage_weapon > minus { damage_weapon - minus } else { 0 };

        let add: u64 = dcy_weapon * 2 + 1;
        let damage_each: u64 = if mag_attacker + add > mag_defender { mag_attacker + add - mag_defender } else { 1 };
        assert(damage_each * add <= 711 * 511) by (nonlinear_arith)
            requires damage_each <= 711, add <= 511;
        let damage_magic: u64 = damage_each * add;

        let factor_defeat: u64 = if defender.is_retreat() {
            FACTOR_RETREAT as u64
        } else if defender.is_rout() {
            FACTOR_ROUT as u64
        } else {
            FACTOR_FIGHT as u64
        };

        assert(damage_base * (prc_weapon + 1) <= 65535 * 256) by (nonlinear_arith)
            requires damage_base <= 65535, prc_weapon + 1 <= 256;
        assert(damage_base * (slh_weapon + 1) <= 65535 * 256) by (nonlinear_arith)
            requires damage_base <= 65535, slh_weapon + 1 <= 256;
        assert(damage_magic * (dcy_weapon + 1) <= 363321 * 256) by (nonlinear_arith)
            requires damage_magic <= 363321, dcy_weapon + 1 <= 256;
        let damage_mrl: u64 = damage_base * (prc_weapon + 1) + damage_magic * (dcy_weapon + 1);
        let hit: u64 = damage_base * (slh_weapon + 1) + damage_magic;
        assert(hit * factor_defeat <= 20000000 * 4) by (nonlinear_arith)
            requires hit <= 20000000, factor_defeat <= 4;
        let damage_hlt: u64 = hit * factor_defeat;
        let damage_spl: u64 = (damage_base + damage_magic) * factor_defeat;

        proof {
            let expected = UnitStatistics::damage(*attacker, *defender, *weapon);
            assert(raw == (strength * spl_attacker * factor) / (PERCENT_100 * PERCENT_100));
            assert(damage_weapon == UnitStatistics::weapon_damage(*attacker, *defender, *weapon));
            assert(minus == UnitStatistics::armour(*defender, *weapon));
            assert(damage_base == UnitStatistics::base_damage(*attacker, *defender, *weapon));
            assert(damage_magic == UnitStatistics::magic_damage(*attacker, *defender, *weapon));
            assert(factor_defeat == UnitStatistics::defeat_factor(*defender));
            assert(damage_mrl == expected.0);
            assert(damage_hlt == expected.1);
            assert(damage_spl == expected.2);
        }

        (damage_mrl as u16, damage_hlt as u16, damage_spl as u16)
    }
}

} // verus!

verus! {

/// The statistics after one adjustment: a flat or a percentage change of a statistic of the
/// unit; an adjustment of a tile changes nothing.
pub open spec fn adjustment_applied(statistics: UnitStatistics, adjustment: Adjustment, flat: bool) -> UnitStatistics {
    match adjustment.0 {
        StatisticKind::Unit(s) => if flat {
            statistics.changed(s, adjustment.1, adjustment.2)
        } else {
            statistics.percent_changed(s, adjustment.1, adjustment.2)
        },
        StatisticKind::Tile(..) => statistics,
    }
}

/// The statistics after the adjustments, in order.
pub open spec fn adjustments_applied(statistics: UnitStatistics, adjustments: Seq<Adjustment>, flat: bool) -> UnitStatistics
    decreases adjustments.len(),
{
    if adjustments.len() == 0 {
        statistics
    } else {
        adjustment_applied(adjustments_applied(statistics, adjustments.drop_last(), flat), adjustments.last(), flat)
    }
}

/// Whether a statistic is a constant: attack, defence, magic, manoeuvre or cohesion.
pub open spec fn is_constant(statistic: UnitStatistic) -> bool {
    statistic == UnitStatistic::ATK || statistic == UnitStatistic::DEF || statistic == UnitStatistic::MAG
        || statistic == UnitStatistic::MOV || statistic == UnitStatistic::ORG
}

/// The statistics after undoing one adjustment of a modifier: a percentage change of a
/// constant the other way; quantities stay as they are.
pub open spec fn adjustment_reverted(statistics: UnitStatistics, adjustment: Adjustment) -> UnitStatistics {
    match adjustment.0 {
        StatisticKind::Unit(s) => if is_constant(s) {
            statistics.percent_changed(s, adjustment.1, !adjustment.2)
        } else {
            statistics
        },
        StatisticKind::Tile(..) => statistics,
    }
}

/// The statistics after undoing the adjustments, in order.
pub open spec fn adjustments_reverted(statistics: UnitStatistics, adjustments: Seq<Adjustment>) -> UnitStatistics
    decreases adjustments.len(),
{
    if adjustments.len() == 0 {
        statistics
    } else {
        adjustment_reverted(adjustments_reverted(statistics, adjustments.drop_last()), adjustments.last())
    }
}

/// Whether some adjustment changes a statistic of the unit.
pub open spec fn touches_unit(adjustments: Seq<Adjustment>) -> bool {
    exists|j: int| 0 <= j < adjustments.len() && (#[trigger] adjustments[j]).0 is Unit
}

/// Whether an adjustment changes a constant of the unit.
pub open spec fn is_constant_adjustment(adjustment: Adjustment) -> bool {
    match adjustment.0 {
        StatisticKind::Unit(s) => is_constant(s),
        StatisticKind::Tile(..) => false,
    }
}

/// Whether some adjustment changes a constant of the unit.
pub open spec fn touches_constant(adjustments: Seq<Adjustment>) -> bool {
    exists|j: int| 0 <= j < adjustments.len() && is_constant_adjustment(#[trigger] adjustments[j])
}

/// Whether statistics describe a living unit: it has manpower and morale.
pub open spec fn lives(statistics: UnitStatistics) -> bool {
    statistics.value(UnitStatistic::HLT) > 0 && statistics.value(UnitStatistic::MRL) > 0
}

/// Whether every adjustment changes a statistic that exists, by at most 1000.
pub open spec fn adjustments_ok(adjustments: Seq<Adjustment>) -> bool {
    forall|j: int| 0 <= j < adjustments.len() ==> adjustment_ok(#[trigger] adjustments[j])
}

/// The identifiers of the magics that a unit with `usable` elements and `mag` magic may use:
/// those of a usable element whose cost is at most its magic, in order.
pub open spec fn usable_magic_ids(magics: Seq<Magic>, usable: [bool; 3], mag: u16) -> Seq<ID>
    decreases magics.len(),
{
    if magics.len() == 0 {
        Seq::empty()
    } else {
        let previous = usable_magic_ids(magics.drop_last(), usable, mag);
        let magic = magics.last();
        if usable@[magic.element().index()] && mag >= magic.cost() {
            previous.push(magic.id())
        } else {
            previous
        }
    }
}

/// What the actions of a unit change: its statistics, its changes in effect, its weapons
/// and skills, its leader and whether it lives.
pub struct UnitState {
    pub statistics: UnitStatistics,
    pub modifier_terrain: Option<ID>,
    pub modifiers: Seq<Modifier>,
    pub attributes: Seq<Attribute>,
    pub attribute_on_hit: Option<Attribute>,
    pub weapons: Seq<Weapon>,
    pub weapon_active: usize,
    pub skill_passive: Option<ID>,
    pub skills: Seq<Skill>,
    pub leader: Option<ID>,
    pub alive: bool,
}

/// Whether one of `modifiers` has the identifier `id`.
pub open spec fn has_modifier(modifiers: Seq<Modifier>, id: ID) -> bool {
    exists|i: int| 0 <= i < modifiers.len() && (#[trigger] modifiers[i]).id() == id
}

/// The position of the first of `modifiers` with the identifier `id`.
pub open spec fn modifier_position(modifiers: Seq<Modifier>, id: ID) -> Option<int> {
    if has_modifier(modifiers, id) {
        Some(choose|i: int| 0 <= i < modifiers.len() && (#[trigger] modifiers[i]).id() == id
            && forall|j: int| 0 <= j < i ==> modifiers[j].id() != id)
    } else {
        None
    }
}

/// The position of the first of `attributes` with the identifier `id`.
pub open spec fn attribute_position(attributes: Seq<Attribute>, id: ID) -> Option<int> {
    if exists|i: int| 0 <= i < attributes.len() && (#[trigger] attributes[i]).id() == id {
        Some(choose|i: int| 0 <= i < attributes.len() && (#[trigger] attributes[i]).id() == id
            && forall|j: int| 0 <= j < i ==> attributes[j].id() != id)
    } else {
        None
    }
}

/// `items` with the item at `i` replaced by the last one, and the last one dropped.
pub open spec fn swap_removed<T>(items: Seq<T>, i: int) -> Seq<T> {
    items.update(i, items.last()).drop_last()
}

impl UnitState {
    /// The state with its statistics changed by `adjustments`; a change of a statistic of the
    /// unit checks again whether it lives.
    pub open spec fn adjusted(self, adjustments: Seq<Adjustment>, flat: bool) -> UnitState {
        let statistics = adjustments_applied(self.statistics, adjustments, flat);
        UnitState {
            statistics,
            alive: if touches_unit(adjustments) { lives(statistics) } else { self.alive },
            ..self
        }
    }

    /// Whether `modifier` may be added: it stacks, or no modifier of its identifier is in effect.
    pub open spec fn admits(self, modifier: Modifier) -> bool {
        modifier.stacks() || !has_modifier(self.modifiers, modifier.id())
    }

    /// Whether adding `appliable` takes effect.
    pub open spec fn takes(self, appliable: AppliableBox) -> bool {
        match appliable {
            AppliableBox::Modifier(m) => self.admits(m),
            AppliableBox::Effect(..) => true,
            AppliableBox::Attribute(..) => false,
        }
    }

    /// The state after adding `appliable`: an admitted modifier changes the statistics by
    /// percentages and stays in effect; an effect changes them, flat or by percentages, once.
    pub open spec fn appliable_added(self, appliable: AppliableBox) -> UnitState {
        match appliable {
            AppliableBox::Modifier(m) => if self.admits(m) {
                UnitState { modifiers: self.modifiers.push(m), ..self.adjusted(m.adjustments(), false) }
            } else {
                self
            },
            AppliableBox::Effect(e) => self.adjusted(e.adjustments(), e.flat()),
            AppliableBox::Attribute(..) => self,
        }
    }

    /// The state after adding each of `modifiers`, in order.
    pub open spec fn modifiers_added(self, modifiers: Seq<Modifier>) -> UnitState
        decreases modifiers.len(),
    {
        if modifiers.len() == 0 {
            self
        } else {
            self.modifiers_added(modifiers.drop_last()).appliable_added(AppliableBox::Modifier(modifiers.last()))
        }
    }

    /// Whether adding `attribute` takes effect: it does unless it triggers on occupation.
    pub open spec fn attribute_takes(attribute: Attribute) -> bool {
        attribute.trigger() != Trigger::OnOccupy
    }

    /// The state after adding `attribute` of `scene`: one triggered on attack goes to the
    /// weapon in use; one triggered on hit replaces the attribute on hit; one always in effect
    /// stays in effect and adds the change it yields.
    pub open spec fn attribute_added(self, attribute: Attribute, scene: Scene) -> UnitState {
        match attribute.trigger() {
            Trigger::OnAttack => UnitState {
                weapons: self.weapons.update(
                    self.weapon_active as int,
                    self.weapons[self.weapon_active as int].with_attribute(Some(attribute)),
                ),
                ..self
            },
            Trigger::OnHit => UnitState { attribute_on_hit: Some(attribute), ..self },
            Trigger::OnOccupy => self,
            Trigger::Always => UnitState { attributes: self.attributes.push(attribute), ..self }.appliable_added(
                scene.appliable_of(attribute.appliable_kind()),
            ),
        }
    }

    /// The state after adding each of `attributes` of `scene`, in order.
    pub open spec fn attributes_added(self, attributes: Seq<Attribute>, scene: Scene) -> UnitState
        decreases attributes.len(),
    {
        if attributes.len() == 0 {
            self
        } else {
            self.attributes_added(attributes.drop_last(), scene).attribute_added(attributes.last(), scene)
        }
    }

    /// The state after removing the first modifier of identifier `id`: it leaves its place to the
    /// last modifier, and the changes it made to the constants are undone.
    pub open spec fn modifier_removed(self, id: ID) -> UnitState {
        match modifier_position(self.modifiers, id) {
            Some(i) => {
                let adjustments = self.modifiers[i].adjustments();
                let statistics = adjustments_reverted(self.statistics, adjustments);
                UnitState {
                    statistics,
                    modifiers: swap_removed(self.modifiers, i),
                    alive: if touches_constant(adjustments) { lives(statistics) } else { self.alive },
                    ..self
                }
            },
            None => self,
        }
    }

    /// Whether removing the attribute of identifier `id` takes effect: one always in effect, or
    /// the attribute on hit, has it.
    pub open spec fn attribute_removable(self, id: ID) -> bool {
        attribute_position(self.attributes, id) is Some || (self.attribute_on_hit matches Some(a) && a.id() == id)
    }

    /// The state after removing the attribute of identifier `id`: the first one always in
    /// effect leaves its place to the last, taking with it the modifier it yielded; failing
    /// that, the attribute on hit goes.
    pub open spec fn attribute_removed(self, id: ID) -> UnitState {
        match attribute_position(self.attributes, id) {
            Some(i) => {
                let removed = UnitState { attributes: swap_removed(self.attributes, i), ..self };
                match self.attributes[i].appliable_kind() {
                    AppliableKind::Modifier(m) => removed.modifier_removed(m),
                    _ => removed,
                }
            },
            None => if self.attribute_on_hit matches Some(a) && a.id() == id {
                UnitState { attribute_on_hit: None, ..self }
            } else {
                self
            },
        }
    }
}

/// The modifiers that survive a turn, each a turn older, in order.
pub open spec fn modifiers_survived(modifiers: Seq<Modifier>) -> Seq<Modifier>
    decreases modifiers.len(),
{
    if modifiers.len() == 0 {
        Seq::empty()
    } else {
        let previous = modifiers_survived(modifiers.drop_last());
        if modifiers.last().survives() { previous.push(modifiers.last().decremented()) } else { previous }
    }
}

/// The successors in `scene` of the modifiers that expire this turn, in order.
pub open spec fn modifiers_succeeding(modifiers: Seq<Modifier>, scene: Scene) -> Seq<Modifier>
    decreases modifiers.len(),
{
    if modifiers.len() == 0 {
        Seq::empty()
    } else {
        let previous = modifiers_succeeding(modifiers.drop_last(), scene);
        let m = modifiers.last();
        if !m.survives() && m.next() is Some {
            previous.push(scene.modifiers()[m.next()->Some_0 as int])
        } else {
            previous
        }
    }
}

/// The attributes that survive a turn, each a turn older, in order.
pub open spec fn attributes_survived(attributes: Seq<Attribute>) -> Seq<Attribute>
    decreases attributes.len(),
{
    if attributes.len() == 0 {
        Seq::empty()
    } else {
        let previous = attributes_survived(attributes.drop_last());
        if attributes.last().survives() { previous.push(attributes.last().decremented()) } else { previous }
    }
}

/// A skill a turn later: a running cooldown loses a turn.
pub open spec fn skill_decremented(skill: Skill) -> Skill {
    match skill.kind() {
        SkillKind::Timed(c, m) => if c > 0 { skill.with_kind(SkillKind::Timed((c - 1) as u16, m)) } else { skill },
        _ => skill,
    }
}

/// A weapon a turn later: its attribute on attack loses a turn, and goes once expired.
pub open spec fn weapon_decremented(weapon: Weapon) -> Weapon {
    match weapon.attribute_on_attack() {
        Some(a) => weapon.with_attribute(if a.survives() { Some(a.decremented()) } else { None }),
        None => weapon,
    }
}

/// The modifiers applied each turn, copied to apply once more.
pub open spec fn modifiers_repeated(modifiers: Seq<Modifier>) -> Seq<Modifier>
    decreases modifiers.len(),
{
    if modifiers.len() == 0 {
        Seq::empty()
    } else {
        let previous = modifiers_repeated(modifiers.drop_last());
        if modifiers.last().every_turn() { previous.push(modifiers.last().with_every_turn(false)) } else { previous }
    }
}

impl UnitState {
    /// The state with `statistics`, checking again whether the unit lives.
    pub open spec fn with_statistics(self, statistics: UnitStatistics) -> UnitState {
        UnitState { statistics, alive: lives(statistics), ..self }
    }

    /// The state a turn later in `scene`: surviving modifiers age and the successors of expired
    /// ones are added; attributes, skills and weapons age.
    pub open spec fn decremented(self, scene: Scene) -> UnitState {
        UnitState {
            modifiers: modifiers_survived(self.modifiers),
            attributes: attributes_survived(self.attributes),
            skills: self.skills.map_values(|s: Skill| skill_decremented(s)),
            weapons: self.weapons.map_values(|w: Weapon| weapon_decremented(w)),
            ..self
        }.modifiers_added(modifiers_succeeding(self.modifiers, scene))
    }
}

/// The identifier of the change a skill applies now.
pub open spec fn skill_attribute_id(skill: Skill) -> ID {
    match skill.appliable() {
        AppliableKind::Modifier(i) => i,
        AppliableKind::Effect(i) => i,
        AppliableKind::Attribute(i) => i,
    }
}

/// The attributes of `scene` that the toggled skills among `skills` apply now, in order.
pub open spec fn toggled_attributes(skills: Seq<Skill>, scene: Scene) -> Seq<Attribute>
    decreases skills.len(),
{
    if skills.len() == 0 {
        Seq::empty()
    } else {
        let previous = toggled_attributes(skills.drop_last(), scene);
        if skills.last().kind() is Toggled {
            previous.push(scene.attributes()[skill_attribute_id(skills.last()) as int])
        } else {
            previous
        }
    }
}

/// The attributes that valid skills toggle on are valid and change something else than an
/// attribute.
proof fn lemma_toggled_attributes(skills: Seq<Skill>, scene: Scene)
    requires
        scene.wf(),
        forall|i: int| 0 <= i < skills.len() ==> (#[trigger] skills[i]).valid_in(scene),
        forall|i: int, j: int| 0 <= i < skills.len() && 0 <= j < skills[i].appliables().len()
            ==> #[trigger] skills[i].appliables()[j] is Attribute,
    ensures
        forall|j: int| 0 <= j < toggled_attributes(skills, scene).len() ==> {
            &&& scene.valid_kind((#[trigger] toggled_attributes(skills, scene)[j]).appliable_kind())
            &&& !(toggled_attributes(skills, scene)[j].appliable_kind() is Attribute)
        },
    decreases skills.len(),
{
    if skills.len() > 0 {
        let rest = skills.drop_last();
        assert forall|i: int| 0 <= i < rest.len() implies (#[trigger] rest[i]).valid_in(scene) by {
            assert(rest[i] == skills[i]);
        }
        assert forall|i: int, j: int| 0 <= i < rest.len() && 0 <= j < rest[i].appliables().len()
            implies #[trigger] rest[i].appliables()[j] is Attribute by {
            assert(rest[i] == skills[i]);
        }
        lemma_toggled_attributes(rest, scene);
        let last = skills.last();
        if last.kind() is Toggled {
            let t = last.kind()->Toggled_0;
            assert(skills[skills.len() - 1].valid_in(scene));
            assert(skills[skills.len() - 1].appliables()[t as int] is Attribute);
            assert(scene.valid_kind(last.appliables()[t as int]));
            assert(scene.attribute_wf(skill_attribute_id(last) as int));
        }
    }
}

/// The attributes that the inactive skills of a unit in `state` put in effect: that of the
/// passive skill its leader grants, then those of its toggled skills.
pub open spec fn inactive_attributes(state: UnitState, scene: Scene) -> Seq<Attribute> {
    let passive = match state.skill_passive {
        Some(s) => seq![scene.attributes()[skill_attribute_id(scene.skills()[s as int]) as int]],
        None => Seq::empty(),
    };
    passive + toggled_attributes(state.skills, scene)
}

/// The supply drained by an attack at cohesion `org`: 5.0% divided by the whole hundreds of
/// percent of cohesion, all of it when there is none.
pub open spec fn attack_drain(org: u16) -> u16 {
    if org / PERCENT_100 == 0 { 65535u16 } else { (DRAIN_SPL / (org / PERCENT_100)) as u16 }
}

/// The distance to its leader within which a follower with cohesion `org` keeps the leader's
/// passive skill.
pub open spec fn passive_threshold(org: u16) -> int {
    THRESHOLD_SKILL_PASSIVE * (org / PERCENT_100)
}

/// The manpower drained by a magic of cost `cost` cast with magic `mag`.
pub open spec fn magic_drain_hlt(cost: u16, mag: u16) -> u16 {
    if cost * DRAIN_HLT > mag { (cost * DRAIN_HLT - mag) as u16 } else { 1u16 }
}

/// The cohesion drained by a magic of cost `cost` cast with magic `mag`.
pub open spec fn magic_drain_org(cost: u16, mag: u16) -> u16 {
    if cost * PERCENT_1 > mag / PERCENT_1 + PERCENT_1 { (cost * PERCENT_1 - mag / PERCENT_1) as u16 } else { PERCENT_1 }
}

/// The manpower that the cities of `city_ids` in `scene` recover together.
pub open spec fn manpower_total(scene: Scene, city_ids: Seq<ID>) -> int
    decreases city_ids.len(),
{
    if city_ids.len() == 0 {
        0
    } else {
        let c = scene.cities()[city_ids.last() as int];
        manpower_total(scene, city_ids.drop_last()) + crate::map::manpower_of(c.population(), c.factories(), c.farms())
    }
}

/// The equipment that the cities of `city_ids` in `scene` recover together.
pub open spec fn equipment_total(scene: Scene, city_ids: Seq<ID>) -> int
    decreases city_ids.len(),
{
    if city_ids.len() == 0 {
        0
    } else {
        let c = scene.cities()[city_ids.last() as int];
        equipment_total(scene, city_ids.drop_last()) + equipment_of(c.factories(), c.farms())
    }
}

/// The position of the first of `skills` with the identifier `id`.
pub open spec fn skill_position(skills: Seq<Skill>, id: ID) -> int {
    choose|i: int| 0 <= i < skills.len() && (#[trigger] skills[i]).id() == id && forall|j: int| 0 <= j < i ==> skills[j].id() != id
}

/// A skill once used: a toggled skill moves to its next change, a timed one starts its
/// cooldown unless it is running.
pub open spec fn skill_used(skill: Skill) -> Skill {
    match skill.kind() {
        SkillKind::Toggled(i) => skill.with_kind(SkillKind::Toggled(((i + 1) as int % (skill.appliables().len() as int)) as usize)),
        SkillKind::Timed(c, m) => if c == 0 { skill.with_kind(SkillKind::Timed(m, m)) } else { skill },
        SkillKind::Passive => skill,
    }
}

/// A unit: its statistics and the changes, weapons, skills and magics it holds.
#[derive(Debug)]
pub struct Unit {
    id: ID,
    scene: Rc<Scene>,
    statistics: UnitStatistics,
    modifier_terrain_id: Option<ID>,
    modifiers: Vec<Modifier>,
    attributes: Vec<Attribute>,
    attribute_on_hit: Option<Attribute>,
    weapons: Vec<Weapon>,
    skill_passive_id: Option<ID>,
    skills: Vec<Skill>,
    magic_ids: Vec<ID>,
    weapon_active: usize,
    faction_id: ID,
    leader_id: Option<ID>,
    is_alive: bool,
}

impl Unit {
    /// The identifier.
    pub closed spec fn id(&self) -> ID {
        self.id
    }

    /// The scene of the unit.
    pub closed spec fn scene(&self) -> Scene {
        *self.scene
    }

    /// The magics the unit may use.
    pub closed spec fn magic_ids(&self) -> Seq<ID> {
        self.magic_ids@
    }

    /// The faction.
    pub closed spec fn faction(&self) -> ID {
        self.faction_id
    }

    /// What the unit's actions change.
    pub closed spec fn state(&self) -> UnitState {
        UnitState {
            statistics: self.statistics,
            modifier_terrain: self.modifier_terrain_id,
            modifiers: self.modifiers@,
            attributes: self.attributes@,
            attribute_on_hit: self.attribute_on_hit,
            weapons: self.weapons@,
            weapon_active: self.weapon_active,
            skill_passive: self.skill_passive_id,
            skills: self.skills@,
            leader: self.leader_id,
            alive: self.is_alive,
        }
    }

    /// The statistics.
    pub open spec fn statistics(&self) -> UnitStatistics {
        self.state().statistics
    }

    /// The modifier of the terrain the unit last stood on.
    pub open spec fn modifier_terrain(&self) -> Option<ID> {
        self.state().modifier_terrain
    }

    /// The modifiers in effect, in order.
    pub open spec fn modifiers(&self) -> Seq<Modifier> {
        self.state().modifiers
    }

    /// The attributes always in effect, in order.
    pub open spec fn attributes(&self) -> Seq<Attribute> {
        self.state().attributes
    }

    /// The attribute applied to an enemy that hits the unit.
    pub open spec fn attribute_on_hit(&self) -> Option<Attribute> {
        self.state().attribute_on_hit
    }

    /// The weapons.
    pub open spec fn weapons(&self) -> Seq<Weapon> {
        self.state().weapons
    }

    /// The passive skill that the unit's leader grants it.
    pub open spec fn skill_passive(&self) -> Option<ID> {
        self.state().skill_passive
    }

    /// The skills.
    pub open spec fn skills(&self) -> Seq<Skill> {
        self.state().skills
    }

    /// The position of the weapon in use.
    pub open spec fn weapon_active(&self) -> int {
        self.state().weapon_active as int
    }

    /// The leader, for a follower.
    pub open spec fn leader(&self) -> Option<ID> {
        self.state().leader
    }

    /// Whether the unit was alive when last checked.
    pub open spec fn alive(&self) -> bool {
        self.state().alive
    }

    /// Whether `other` is the same unit of the same scene, with the same magics and faction.
    pub open spec fn same_identity(&self, other: &Unit) -> bool {
        &&& other.id() == self.id()
        &&& other.scene() == self.scene()
        &&& other.magic_ids() == self.magic_ids()
        &&& other.faction() == self.faction()
    }

    /// The current value of a statistic.
    pub open spec fn value(&self, statistic: UnitStatistic) -> u16 {
        self.statistics().value(statistic)
    }

    /// Whether a modifier is consistent with the scene: its adjustments are sound and its
    /// successor is a modifier of the scene.
    pub open spec fn modifier_ok(&self, modifier: Modifier) -> bool {
        &&& adjustments_ok(modifier.adjustments())
        &&& (modifier.next() matches Some(n) ==> n < self.scene().modifiers().len())
    }

    /// Whether the unit is consistent: with its scene, its statistics, its weapon in use, its
    /// modifiers, skills, attributes and magics.
    pub open spec fn wf(&self) -> bool {
        &&& self.scene().wf()
        &&& self.statistics().wf()
        &&& (self.weapon_active() < self.weapons().len() || self.weapons().len() == 0)
        &&& 0 <= self.weapon_active()
        &&& forall|i: int| 0 <= i < self.modifiers().len() ==> self.modifier_ok(#[trigger] self.modifiers()[i])
        &&& (self.attribute_on_hit() matches Some(a) ==> self.scene().valid_kind(a.appliable_kind()))
        &&& forall|i: int| 0 <= i < self.weapons().len() ==> (#[trigger] self.weapons()[i]).valid_in(self.scene())
        &&& forall|i: int| 0 <= i < self.skills().len() ==> {
            &&& (#[trigger] self.skills()[i]).valid_in(self.scene())
            &&& forall|j: int| 0 <= j < self.skills()[i].appliables().len() ==> #[trigger] self.skills()[i].appliables()[j] is Attribute
        }
        &&& forall|i: int| 0 <= i < self.magic_ids().len() ==> #[trigger] self.magic_ids()[i] < self.scene().magics().len()
    }

    /// Creates a unit of `scene` with no changes in effect, its first weapon in use.
    pub fn new(
        id: ID,
        scene: Rc<Scene>,
        statistics: UnitStatistics,
        weapons: &[ID],
        skill_passive_id: Option<ID>,
        skill_ids: &[ID],
        magics_usable: &[bool; 3],
        faction_id: ID,
        leader_id: Option<ID>,
    ) -> (unit: Self)
        requires
            scene.wf(),
            statistics.wf(),
            forall|i: int| 0 <= i < weapons@.len() ==> #[trigger] weapons@[i] < scene.weapons().len(),
            forall|i: int| 0 <= i < skill_ids@.len() ==> #[trigger] skill_ids@[i] < scene.skills().len(),
        ensures
            unit.wf(),
            unit.id() == id,
            unit.scene() == *scene,
            unit.statistics() == statistics,
            unit.modifier_terrain() == None::<ID>,
            unit.modifiers() == Seq::<Modifier>::empty(),
            unit.attributes() == Seq::<Attribute>::empty(),
            unit.attribute_on_hit() == None::<Attribute>,
            unit.weapons() == weapons@.map_values(|w: ID| scene.weapons()[w as int]),
            unit.skill_passive() == skill_passive_id,
            unit.skills() == skill_ids@.map_values(|s: ID| scene.skills()[s as int]),
            unit.magic_ids() == usable_magic_ids(scene.magics(), *magics_usable, statistics.value(UnitStatistic::MAG)),
            unit.weapon_active() == 0,
            unit.faction() == faction_id,
            unit.leader() == leader_id,
            unit.alive(),
    {
        let mut weapons_held: Vec<Weapon> = Vec::new();
        let mut i: usize = 0;

        while i < weapons.len()
            invariant
                scene.wf(),
                forall|k: int| 0 <= k < weapons@.len() ==> #[trigger] weapons@[k] < scene.weapons().len(),
                i <= weapons@.len(),
                weapons_held@ == weapons@.take(i as int).map_values(|w: ID| scene.weapons()[w as int]),
            decreases weapons@.len() - i,
        {
            weapons_held.push(*scene.get_weapon(&weapons[i]));
            proof {
                assert(weapons@.take(i + 1) =~= weapons@.take(i as int).push(weapons@[i as int]));
                assert(weapons_held@ =~= weapons@.take(i + 1).map_values(|w: ID| scene.weapons()[w as int]));
            }
            i += 1;
        }

        let mut skills: Vec<Skill> = Vec::new();
        let mut i: usize = 0;

        while i < skill_ids.len()
            invariant
                scene.wf(),
                forall|k: int| 0 <= k < skill_ids@.len() ==> #[trigger] skill_ids@[k] < scene.skills().len(),
                i <= skill_ids@.len(),
                skills@ == skill_ids@.take(i as int).map_values(|s: ID| scene.skills()[s as int]),
            decreases skill_ids@.len() - i,
        {
            skills.push(*scene.get_skill(&skill_ids[i]));
            proof {
                assert(skill_ids@.take(i + 1) =~= skill_ids@.take(i as int).push(skill_ids@[i as int]));
                assert(skills@ =~= skill_ids@.take(i + 1).map_values(|s: ID| scene.skills()[s as int]));
            }
            i += 1;
        }

        let mag: u16 = statistics.get_statistic(UnitStatistic::MAG).0;
        let magics: &[Magic] = scene.magics_iter();
        let mut magic_ids: Vec<ID> = Vec::new();
        let mut i: usize = 0;

        while i < magics.len()
            invariant
                scene.wf(),
                magics@ == scene.magics(),
                i <= magics@.len(),
                magic_ids@ == usable_magic_ids(magics@.take(i as int), *magics_usable, mag),
                forall|k: int| 0 <= k < magic_ids@.len() ==> #[trigger] magic_ids@[k] < scene.magics().len(),
            decreases magics@.len() - i,
        {
            let magic: &Magic = &magics[i];

            proof {
                assert(magics@.take(i + 1).drop_last() =~= magics@.take(i as int));
                assert(scene.magics()[i as int].element() != Element::Length);
                assert(scene.magics()[i as int].id() == i);
            }
            if magics_usable[magic.get_element().position()] && mag >= magic.get_cost() {
                magic_ids.push(magic.get_id());
            }
            i += 1;
        }

        proof {
            assert(weapons@.take(weapons@.len() as int) =~= weapons@);
            assert(skill_ids@.take(skill_ids@.len() as int) =~= skill_ids@);
            assert(magics@.take(magics@.len() as int) =~= magics@);
        }
        let unit = Self {
            id,
            scene,
            statistics,
            modifier_terrain_id: None,
            modifiers: Vec::new(),
            attributes: Vec::new(),
            attribute_on_hit: None,
            weapons: weapons_held,
            skill_passive_id,
            skills,
            magic_ids,
            weapon_active: 0,
            faction_id,
            leader_id,
            is_alive: true,
        };

        proof {
            assert forall|k: int| 0 <= k < unit.weapons().len() implies (#[trigger] unit.weapons()[k]).valid_in(unit.scene()) by {
                assert(unit.weapons()[k] == unit.scene().weapons()[weapons@[k] as int]);
            }
            assert forall|k: int| 0 <= k < unit.skills().len() implies {
                &&& (#[trigger] unit.skills()[k]).valid_in(unit.scene())
                &&& forall|j: int| 0 <= j < unit.skills()[k].appliables().len() ==> #[trigger] unit.skills()[k].appliables()[j] is Attribute
            } by {
                assert(unit.skills()[k] == unit.scene().skills()[skill_ids@[k] as int]);
                assert(unit.scene().skill_wf(skill_ids@[k] as int));
            }
        }
        unit
    }
}

/// A percentage change of at most 1000% of a base of at most 2000 is at most 20000.
proof fn lemma_percentage_bound(base: u16, change: u16)
    requires
        base <= 2000,
        change <= 1000,
    ensures
        percentage_amount(base, change) <= 20000,
{
    assert((base as int) * (change as int) <= 2000 * 1000) by (nonlinear_arith)
        requires
            0 <= base <= 2000,
            0 <= change <= 1000,
    ;
}

impl UnitStatistics {
    /// A consistent statistic is at most its maximum, itself at most 2000, and so is its base.
    pub proof fn lemma_bounds(self, statistic: UnitStatistic)
        requires
            self.wf(),
            statistic != UnitStatistic::Length,
        ensures
            self.value(statistic) <= statistic.maximum() <= 2000,
            self.capacity(statistic).base() <= 2000,
    {
        assert(self.statistic_wf(statistic));
    }
}

impl Unit {
    /// Consistency rests on the scene, the statistics, the weapons, the modifiers, the attribute
    /// on hit, the skills and the magics alone.
    proof fn lemma_wf_frame(&self, other: &Unit)
        requires
            self.wf(),
            self.same_identity(other),
            other.statistics().wf(),
            other.modifiers() == self.modifiers(),
            other.attribute_on_hit() matches Some(a) ==> other.scene().valid_kind(a.appliable_kind()),
            other.weapons() == self.weapons(),
            other.weapon_active() == self.weapon_active(),
            other.skills() == self.skills(),
        ensures
            other.wf(),
    {
        assert forall|i: int| 0 <= i < other.modifiers().len() implies other.modifier_ok(#[trigger] other.modifiers()[i]) by {
            assert(self.modifier_ok(self.modifiers()[i]));
        }
        assert forall|i: int| 0 <= i < other.weapons().len() implies (#[trigger] other.weapons()[i]).valid_in(other.scene()) by {
            assert(self.weapons()[i].valid_in(self.scene()));
        }
        assert forall|i: int| 0 <= i < other.skills().len() implies {
            &&& (#[trigger] other.skills()[i]).valid_in(other.scene())
            &&& forall|j: int| 0 <= j < other.skills()[i].appliables().len() ==> #[trigger] other.skills()[i].appliables()[j] is Attribute
        } by {
            assert(self.skills()[i].valid_in(self.scene()));
        }
        assert forall|i: int| 0 <= i < other.magic_ids().len() implies #[trigger] other.magic_ids()[i] < other.scene().magics().len() by {
            assert(self.magic_ids()[i] < self.scene().magics().len());
        }
    }

    /// Gets a statistic: its current value, and its base (a constant) or maximum (a quantity).
    pub fn get_statistic(&self, statistic: UnitStatistic) -> (reported: (u16, u16))
        requires
            self.wf(),
            statistic != UnitStatistic::Length,
        ensures
            reported == self.statistics().reported(statistic),
    {
        self.statistics.get_statistic(statistic)
    }

    /// Checks again whether the unit lives: it has manpower and morale.
    fn update_is_alive(&mut self) -> (is_alive: bool)
        requires
            old(self).wf(),
        ensures
            final(self).wf(),
            old(self).same_identity(final(self)),
            final(self).state() == old(self).state().with_statistics(old(self).statistics()),
            is_alive == lives(old(self).statistics()),
    {
        self.is_alive = self.get_statistic(UnitStatistic::HLT).0 > 0 && self.get_statistic(UnitStatistic::MRL).0 > 0;
        proof {
            old(self).lemma_wf_frame(self);
        }

        self.is_alive
    }

    /// Sets the current value of a statistic, and checks again whether the unit lives.
    pub fn set_statistic(&mut self, statistic: UnitStatistic, value: u16)
        requires
            old(self).wf(),
            statistic != UnitStatistic::Length,
            value <= statistic.maximum(),
        ensures
            final(self).wf(),
            old(self).same_identity(final(self)),
            final(self).state() == old(self).state().with_statistics(old(self).statistics().with_value(statistic, value)),
    {
        self.statistics.set_statistic(statistic, value);
        proof {
            old(self).lemma_wf_frame(self);
        }
        proof {
            old(self).statistics().lemma_is_set(self.statistics, statistic, value);
        }
        self.update_is_alive();
    }

    /// Changes a statistic by a flat amount, and checks again whether the unit lives.
    pub fn change_statistic_flat(&mut self, statistic: UnitStatistic, change: u16, is_add: bool)
        requires
            old(self).wf(),
            statistic != UnitStatistic::Length,
            is_add ==> old(self).value(statistic) + change <= 65535,
        ensures
            final(self).wf(),
            old(self).same_identity(final(self)),
            final(self).state() == old(self).state().with_statistics(old(self).statistics().changed(statistic, change, is_add)),
    {
        self.statistics.change_statistic_flat(statistic, change, is_add);
        proof {
            old(self).lemma_wf_frame(self);
        }
        self.update_is_alive();
    }

    /// Changes a statistic by a percentage of its base (a constant) or maximum (a quantity), and
    /// checks again whether the unit lives.
    pub fn change_statistic_percentage(&mut self, statistic: UnitStatistic, change: u16, is_add: bool)
        requires
            old(self).wf(),
            statistic != UnitStatistic::Length,
            is_add ==> old(self).value(statistic) + percentage_amount(old(self).statistics().capacity(statistic).base(), change) <= 65535,
        ensures
            final(self).wf(),
            old(self).same_identity(final(self)),
            final(self).state() == old(self).state().with_statistics(
                old(self).statistics().percent_changed(statistic, change, is_add),
            ),
    {
        self.statistics.change_statistic_percentage(statistic, change, is_add);
        proof {
            old(self).lemma_wf_frame(self);
        }
        self.update_is_alive();
    }

    /// Applies `adjustments` to the statistics, in order, flat or by percentages.
    fn apply_adjustments(&mut self, adjustments: ShortList<Adjustment>, flat: bool)
        requires
            old(self).wf(),
            adjustments_ok(adjustments@),
        ensures
            final(self).wf(),
            old(self).same_identity(final(self)),
            final(self).state() == old(self).state().adjusted(adjustments@, flat),
    {
        let ghost all: Seq<Adjustment> = adjustments@;
        let mut k: usize = 0;

        proof {
            adjustments.lemma_len();
            assert(all.take(0) =~= Seq::<Adjustment>::empty());
        }
        while k < adjustments.len()
            invariant
                self.wf(),
                old(self).same_identity(self),
                all == adjustments@,
                adjustments_ok(all),
                k <= all.len(),
                self.state() == old(self).state().adjusted(all.take(k as int), flat),
            decreases all.len() - k,
        {
            let adjustment: Adjustment = adjustments.get(k);
            let ghost before: UnitState = self.state();

            proof {
                assert(all.take(k + 1).drop_last() =~= all.take(k as int));
                assert(all.take(k + 1).last() == adjustment);
                assert(adjustment_ok(all[k as int]));
                assert(touches_unit(all.take(k + 1)) == (touches_unit(all.take(k as int)) || adjustment.0 is Unit)) by {
                    if touches_unit(all.take(k as int)) {
                        let j = choose|j: int| 0 <= j < all.take(k as int).len() && (#[trigger] all.take(k as int)[j]).0 is Unit;
                        assert(all.take(k + 1)[j] == all.take(k as int)[j]);
                    }
                    if adjustment.0 is Unit {
                        assert(all.take(k + 1)[k as int] == adjustment);
                    }
                    if touches_unit(all.take(k + 1)) {
                        let j = choose|j: int| 0 <= j < all.take(k + 1).len() && (#[trigger] all.take(k + 1)[j]).0 is Unit;
                        if j < k {
                            assert(all.take(k as int)[j] == all.take(k + 1)[j]);
                        }
                    }
                }
            }
            match adjustment.0 {
                StatisticKind::Unit(statistic) => {
                    proof {
                        self.statistics().lemma_bounds(statistic);
                        lemma_percentage_bound(self.statistics().capacity(statistic).base(), adjustment.1);
                    }
                    if flat {
                        self.change_statistic_flat(statistic, adjustment.1, adjustment.2);
                    } else {
                        self.change_statistic_percentage(statistic, adjustment.1, adjustment.2);
                    }
                },
                StatisticKind::Tile(..) => {},
            }
            k += 1;
        }

        proof {
            assert(all.take(all.len() as int) =~= all);
        }
    }

    /// Undoes `adjustments` of a modifier, in order: the constants change back by percentages.
    fn revert_adjustments(&mut self, adjustments: ShortList<Adjustment>)
        requires
            old(self).wf(),
            adjustments_ok(adjustments@),
        ensures
            final(self).wf(),
            old(self).same_identity(final(self)),
            ({
                let statistics = adjustments_reverted(old(self).statistics(), adjustments@);
                final(self).state() == UnitState {
                    statistics,
                    alive: if touches_constant(adjustments@) { lives(statistics) } else { old(self).alive() },
                    ..old(self).state()
                }
            }),
    {
        let ghost all: Seq<Adjustment> = adjustments@;
        let mut k: usize = 0;

        proof {
            adjustments.lemma_len();
            assert(all.take(0) =~= Seq::<Adjustment>::empty());
        }
        while k < adjustments.len()
            invariant
                self.wf(),
                old(self).same_identity(self),
                all == adjustments@,
                adjustments_ok(all),
                k <= all.len(),
                ({
                    let statistics = adjustments_reverted(old(self).statistics(), all.take(k as int));
                    self.state() == UnitState {
                        statistics,
                        alive: if touches_constant(all.take(k as int)) { lives(statistics) } else { old(self).alive() },
                        ..old(self).state()
                    }
                }),
            decreases all.len() - k,
        {
            let adjustment: Adjustment = adjustments.get(k);

            proof {
                assert(all.take(k + 1).drop_last() =~= all.take(k as int));
                assert(all.take(k + 1).last() == adjustment);
                assert(adjustment_ok(all[k as int]));
                assert(touches_constant(all.take(k + 1)) == (touches_constant(all.take(k as int)) || is_constant_adjustment(adjustment))) by {
                    if touches_constant(all.take(k as int)) {
                        let j = choose|j: int| 0 <= j < all.take(k as int).len() && is_constant_adjustment(#[trigger] all.take(k as int)[j]);
                        assert(all.take(k + 1)[j] == all.take(k as int)[j]);
                    }
                    if is_constant_adjustment(adjustment) {
                        assert(all.take(k + 1)[k as int] == adjustment);
                    }
                    if touches_constant(all.take(k + 1)) {
                        let j = choose|j: int| 0 <= j < all.take(k + 1).len() && is_constant_adjustment(#[trigger] all.take(k + 1)[j]);
                        if j < k {
                            assert(all.take(k as int)[j] == all.take(k + 1)[j]);
                        }
                    }
                }
            }
            match adjustment.0 {
                StatisticKind::Unit(statistic) => {
                    match statistic {
                        UnitStatistic::ATK | UnitStatistic::DEF | UnitStatistic::MAG | UnitStatistic::MOV | UnitStatistic::ORG => {
                            proof {
                                self.statistics().lemma_bounds(statistic);
                                lemma_percentage_bound(self.statistics().capacity(statistic).base(), adjustment.1);
                            }
                            self.change_statistic_percentage(statistic, adjustment.1, !adjustment.2);
                        },
                        _ => {},
                    }
                },
                StatisticKind::Tile(..) => {},
            }
            k += 1;
        }

        proof {
            assert(all.take(all.len() as int) =~= all);
        }
    }

    /// Finds the first modifier in effect of identifier `modifier_id`.
    fn find_modifier(&self, modifier_id: ID) -> (index: Option<usize>)
        ensures
            match index {
                Some(i) => {
                    &&& modifier_position(self.modifiers(), modifier_id) == Some(i as int)
                    &&& i < self.modifiers().len()
                    &&& self.modifiers()[i as int].id() == modifier_id
                },
                None => modifier_position(self.modifiers(), modifier_id) is None,
            },
    {
        let mut i: usize = 0;

        while i < self.modifiers.len()
            invariant
                i <= self.modifiers@.len(),
                forall|j: int| 0 <= j < i ==> self.modifiers@[j].id() != modifier_id,
            decreases self.modifiers@.len() - i,
        {
            if self.modifiers[i].get_id() == modifier_id {
                proof {
                    let m = self.modifiers();
                    assert(has_modifier(m, modifier_id)) by {
                        assert(m[i as int].id() == modifier_id);
                    }
                    let c = choose|c: int| 0 <= c < m.len() && (#[trigger] m[c]).id() == modifier_id
                        && forall|j: int| 0 <= j < c ==> m[j].id() != modifier_id;
                    assert(m[i as int].id() == modifier_id && forall|j: int| 0 <= j < i ==> m[j].id() != modifier_id);
                    if c < i {
                        assert(m[c].id() != modifier_id);
                    }
                    if i < c {
                        assert(m[i as int].id() != modifier_id);
                    }
                }
                return Some(i);
            }
            i += 1;
        }

        proof {
            assert(!has_modifier(self.modifiers(), modifier_id));
        }
        None
    }

    /// Finds the first attribute always in effect of identifier `attribute_id`.
    fn find_attribute(&self, attribute_id: ID) -> (index: Option<usize>)
        ensures
            match index {
                Some(i) => {
                    &&& attribute_position(self.attributes(), attribute_id) == Some(i as int)
                    &&& i < self.attributes().len()
                    &&& self.attributes()[i as int].id() == attribute_id
                },
                None => attribute_position(self.attributes(), attribute_id) is None,
            },
    {
        let mut i: usize = 0;

        while i < self.attributes.len()
            invariant
                i <= self.attributes@.len(),
                forall|j: int| 0 <= j < i ==> self.attributes@[j].id() != attribute_id,
            decreases self.attributes@.len() - i,
        {
            if self.attributes[i].get_id() == attribute_id {
                proof {
                    let a = self.attributes();
                    assert(a[i as int].id() == attribute_id);
                    let c = choose|c: int| 0 <= c < a.len() && (#[trigger] a[c]).id() == attribute_id
                        && forall|j: int| 0 <= j < c ==> a[j].id() != attribute_id;
                    assert(a[i as int].id() == attribute_id && forall|j: int| 0 <= j < i ==> a[j].id() != attribute_id);
                    if c < i {
                        assert(a[c].id() != attribute_id);
                    }
                    if i < c {
                        assert(a[i as int].id() != attribute_id);
                    }
                }
                return Some(i);
            }
            i += 1;
        }

        None
    }
}

impl Unit {
    /// Consistency survives a change of the modifiers to ones consistent with the scene.
    proof fn lemma_wf_modifiers(&self, other: &Unit)
        requires
            self.wf(),
            self.same_identity(other),
            other.statistics().wf(),
            other.attribute_on_hit() == self.attribute_on_hit(),
            other.weapons() == self.weapons(),
            other.weapon_active() == self.weapon_active(),
            other.skills() == self.skills(),
            forall|i: int| 0 <= i < other.modifiers().len() ==> self.modifier_ok(#[trigger] other.modifiers()[i]),
        ensures
            other.wf(),
    {
        assert forall|i: int| 0 <= i < other.weapons().len() implies (#[trigger] other.weapons()[i]).valid_in(other.scene()) by {
            assert(self.weapons()[i].valid_in(self.scene()));
        }
        assert forall|i: int| 0 <= i < other.skills().len() implies {
            &&& (#[trigger] other.skills()[i]).valid_in(other.scene())
            &&& forall|j: int| 0 <= j < other.skills()[i].appliables().len() ==> #[trigger] other.skills()[i].appliables()[j] is Attribute
        } by {
            assert(self.skills()[i].valid_in(self.scene()));
        }
        assert forall|i: int| 0 <= i < other.magic_ids().len() implies #[trigger] other.magic_ids()[i] < other.scene().magics().len() by {
            assert(self.magic_ids()[i] < self.scene().magics().len());
        }
    }

    /// Removes the first modifier in effect of identifier `modifier_id`, which leaves its place to
    /// the last, and undoes the changes it made to the constants; the result says whether there
    /// was one.
    pub fn remove_modifier(&mut self, modifier_id: &ID) -> (is_removed: bool)
        requires
            old(self).wf(),
        ensures
            final(self).wf(),
            old(self).same_identity(final(self)),
            is_removed == has_modifier(old(self).modifiers(), *modifier_id),
            final(self).state() == old(self).state().modifier_removed(*modifier_id),
    {
        match self.find_modifier(*modifier_id) {
            Some(i) => {
                let modifier: Modifier = self.modifiers.swap_remove(i);

                proof {
                    assert(old(self).modifier_ok(old(self).modifiers()[i as int]));
                    assert forall|k: int| 0 <= k < self.modifiers().len() implies old(self).modifier_ok(#[trigger] self.modifiers()[k]) by {
                        if k == i {
                            assert(self.modifiers()[k] == old(self).modifiers().last());
                        } else {
                            assert(self.modifiers()[k] == old(self).modifiers()[k]);
                        }
                    }
                    old(self).lemma_wf_modifiers(self);
                    assert(has_modifier(old(self).modifiers(), *modifier_id));
                }
                self.revert_adjustments(modifier.get_adjustments());

                true
            },
            None => false,
        }
    }

    /// Removes the attribute of identifier `attribute_id`: the first one always in effect, which
    /// leaves its place to the last and takes the modifier it yielded with it, or else the
    /// attribute on hit; the result says whether there was one.
    pub fn remove_attribute(&mut self, attribute_id: &ID) -> (is_removed: bool)
        requires
            old(self).wf(),
        ensures
            final(self).wf(),
            old(self).same_identity(final(self)),
            is_removed == old(self).state().attribute_removable(*attribute_id),
            final(self).state() == old(self).state().attribute_removed(*attribute_id),
    {
        match self.find_attribute(*attribute_id) {
            Some(i) => {
                let attribute: Attribute = self.attributes.swap_remove(i);

                proof {
                    old(self).lemma_wf_frame(self);
                }
                match attribute.get_kind() {
                    AppliableKind::Modifier(m) => {
                        self.remove_modifier(&m);
                    },
                    _ => {},
                }

                true
            },
            None => match self.attribute_on_hit {
                Some(attribute) => {
                    if attribute.get_id() == *attribute_id {
                        self.attribute_on_hit = None;
                        proof {
                            old(self).lemma_wf_frame(self);
                        }

                        true
                    } else {
                        false
                    }
                },
                None => false,
            },
        }
    }

    /// Adds an attribute: one triggered on attack goes to the weapon in use; one triggered on
    /// hit replaces the attribute on hit; one always in effect stays in effect and adds the
    /// change it yields; one triggered on occupation is refused with `false`.
    pub fn add_attribute(&mut self, attribute: Attribute) -> (is_added: bool)
        requires
            old(self).wf(),
            old(self).scene().valid_kind(attribute.appliable_kind()),
            attribute.trigger() == Trigger::OnAttack ==> old(self).weapons().len() > 0,
            attribute.trigger() == Trigger::Always ==> !(attribute.appliable_kind() is Attribute),
        ensures
            final(self).wf(),
            old(self).same_identity(final(self)),
            is_added == UnitState::attribute_takes(attribute),
            final(self).state() == old(self).state().attribute_added(attribute, old(self).scene()),
    {
        let trigger: Trigger = attribute.get_trigger();
        let appliable: AppliableBox = match attribute.try_yield_appliable(share_scene(&self.scene)) {
            Some(a) => a,
            None => unreached(),
        };

        match trigger {
            Trigger::OnAttack => {
                let active: usize = self.weapon_active;

                self.weapons[active].add_appliable(AppliableBox::Attribute(attribute));
                proof {
                    assert(self.weapons() == old(self).weapons().update(
                        active as int,
                        old(self).weapons()[active as int].with_attribute(Some(attribute)),
                    ));
                    old(self).weapons()[active as int].lemma_with_attribute(Some(attribute));
                    assert forall|i: int| 0 <= i < self.weapons().len() implies (#[trigger] self.weapons()[i]).valid_in(self.scene()) by {
                        if i != active {
                            assert(self.weapons()[i] == old(self).weapons()[i]);
                            assert(old(self).weapons()[i].valid_in(old(self).scene()));
                        }
                    }
                    assert forall|i: int| 0 <= i < self.modifiers().len() implies self.modifier_ok(#[trigger] self.modifiers()[i]) by {
                        assert(old(self).modifier_ok(old(self).modifiers()[i]));
                    }
                    assert forall|i: int| 0 <= i < self.skills().len() implies {
                        &&& (#[trigger] self.skills()[i]).valid_in(self.scene())
                        &&& forall|j: int| 0 <= j < self.skills()[i].appliables().len() ==> #[trigger] self.skills()[i].appliables()[j] is Attribute
                    } by {
                        assert(old(self).skills()[i].valid_in(old(self).scene()));
                    }
                    assert forall|i: int| 0 <= i < self.magic_ids().len() implies #[trigger] self.magic_ids()[i] < self.scene().magics().len() by {
                        assert(old(self).magic_ids()[i] < old(self).scene().magics().len());
                    }
                }

                true
            },
            Trigger::OnHit => match attribute.get_target() {
                Target::Enemy => {
                    self.attribute_on_hit = Some(attribute);
                    proof {
                        assert forall|i: int| 0 <= i < self.modifiers().len() implies self.modifier_ok(#[trigger] self.modifiers()[i]) by {
                            assert(old(self).modifier_ok(old(self).modifiers()[i]));
                        }
                        assert forall|i: int| 0 <= i < self.weapons().len() implies (#[trigger] self.weapons()[i]).valid_in(self.scene()) by {
                            assert(old(self).weapons()[i].valid_in(old(self).scene()));
                        }
                        assert forall|i: int| 0 <= i < self.skills().len() implies {
                            &&& (#[trigger] self.skills()[i]).valid_in(self.scene())
                            &&& forall|j: int| 0 <= j < self.skills()[i].appliables().len() ==> #[trigger] self.skills()[i].appliables()[j] is Attribute
                        } by {
                            assert(old(self).skills()[i].valid_in(old(self).scene()));
                        }
                        assert forall|i: int| 0 <= i < self.magic_ids().len() implies #[trigger] self.magic_ids()[i] < self.scene().magics().len() by {
                            assert(old(self).magic_ids()[i] < old(self).scene().magics().len());
                        }
                    }

                    true
                },
                _ => false,
            },
            Trigger::OnOccupy => false,
            Trigger::Always => match attribute.get_target() {
                Target::This => {
                    self.attributes.push(attribute);
                    proof {
                        old(self).lemma_wf_frame(self);
                        self.lemma_scene_appliable(attribute.appliable_kind());
                    }
                    self.add_appliable(appliable);

                    true
                },
                _ => false,
            },
        }
    }
}

impl Applier for Unit {
    open spec fn valid_in(&self, scene: Scene) -> bool {
        self.attribute_on_hit() matches Some(a) ==> scene.valid_kind(a.appliable_kind())
    }

    /// A unit yields the change of its attribute on hit, if it has one.
    fn try_yield_appliable(&self, scene: Rc<Scene>) -> (appliable: Option<AppliableBox>)
        ensures
            appliable == match self.attribute_on_hit() {
                Some(a) => Some(scene.appliable_of(a.appliable_kind())),
                None => None::<AppliableBox>,
            },
    {
        match self.attribute_on_hit {
            Some(attribute) => attribute.try_yield_appliable(scene),
            None => None,
        }
    }

    /// A unit's attribute on hit targets the enemy.
    fn get_target(&self) -> (target: Target)
        ensures
            target == Target::Enemy,
    {
        Target::Enemy
    }
}

impl Dynamic for Unit {
    /// A unit takes a modifier or an effect consistent with its scene.
    open spec fn accepts(&self, appliable: AppliableBox) -> bool {
        &&& self.wf()
        &&& match appliable {
            AppliableBox::Modifier(m) => self.modifier_ok(m),
            AppliableBox::Effect(e) => adjustments_ok(e.adjustments()),
            AppliableBox::Attribute(..) => false,
        }
    }

    /// A unit removes modifiers and attributes.
    open spec fn removable(&self, kind: AppliableKind) -> bool {
        self.wf() && !(kind is Effect)
    }

    open spec fn decrementable(&self) -> bool {
        self.wf()
    }

    /// A modifier that stacks, or whose identifier is not in effect yet, changes the statistics
    /// by percentages and stays in effect; an effect changes them once, flat or by percentages.
    fn add_appliable(&mut self, appliable: AppliableBox) -> (is_added: bool)
        ensures
            final(self).wf(),
            old(self).same_identity(final(self)),
            is_added == old(self).state().takes(appliable),
            final(self).state() == old(self).state().appliable_added(appliable),
    {
        match appliable {
            AppliableBox::Modifier(modifier) => {
                if modifier.can_stack() || self.find_modifier(modifier.get_id()).is_none() {
                    let ghost before: Unit = *self;

                    self.apply_adjustments(modifier.get_adjustments(), false);
                    let ghost adjusted: Unit = *self;

                    self.modifiers.push(modifier);
                    proof {
                        assert forall|k: int| 0 <= k < self.modifiers().len() implies adjusted.modifier_ok(#[trigger] self.modifiers()[k]) by {
                            if k < adjusted.modifiers().len() {
                                assert(adjusted.modifier_ok(adjusted.modifiers()[k]));
                            }
                        }
                        adjusted.lemma_wf_modifiers(self);
                    }

                    true
                } else {
                    false
                }
            },
            AppliableBox::Effect(effect) => {
                self.apply_adjustments(effect.get_adjustments(), effect.can_stack_or_is_flat());

                true
            },
            AppliableBox::Attribute(..) => unreached(),
        }
    }

    /// A modifier or an attribute is removed by its identifier.
    fn remove_appliable(&mut self, appliable: AppliableKind) -> (is_removed: bool)
        ensures
            final(self).wf(),
            old(self).same_identity(final(self)),
            match appliable {
                AppliableKind::Modifier(id) => {
                    &&& is_removed == has_modifier(old(self).modifiers(), id)
                    &&& final(self).state() == old(self).state().modifier_removed(id)
                },
                AppliableKind::Attribute(id) => {
                    &&& is_removed == old(self).state().attribute_removable(id)
                    &&& final(self).state() == old(self).state().attribute_removed(id)
                },
                AppliableKind::Effect(..) => false,
            },
    {
        match appliable {
            AppliableKind::Modifier(id) => self.remove_modifier(&id),
            AppliableKind::Attribute(id) => self.remove_attribute(&id),
            AppliableKind::Effect(..) => unreached(),
        }
    }

    /// Surviving modifiers age and the successors of expired ones are added; attributes,
    /// skills and weapons age.
    fn decrement_durations(&mut self)
        ensures
            final(self).wf(),
            old(self).same_identity(final(self)),
            final(self).state() == old(self).state().decremented(old(self).scene()),
    {
        self.decrement_all();
    }
}

impl Unit {
    /// A change of the scene other than an attribute is one the unit accepts.
    proof fn lemma_scene_appliable(&self, kind: AppliableKind)
        requires
            self.wf(),
            self.scene().valid_kind(kind),
            !(kind is Attribute),
        ensures
            self.accepts(self.scene().appliable_of(kind)),
    {
        match kind {
            AppliableKind::Modifier(m) => {
                self.scene().lemma_modifier(m as int);
            },
            AppliableKind::Effect(e) => {
                assert(self.scene().effect_wf(e as int));
            },
            AppliableKind::Attribute(..) => {},
        }
    }

    /// Ages the modifiers, attributes, skills and weapons, and adds the successors of expired
    /// modifiers.
    fn decrement_all(&mut self)
        requires
            old(self).wf(),
        ensures
            final(self).wf(),
            old(self).same_identity(final(self)),
            final(self).state() == old(self).state().decremented(old(self).scene()),
    {
        let ghost start: UnitState = self.state();
        let ghost scene: Scene = self.scene();
        let mut survived: Vec<Modifier> = Vec::new();
        let mut successors: Vec<Modifier> = Vec::new();
        let mut i: usize = 0;

        while i < self.modifiers.len()
            invariant
                self.wf(),
                *self == *old(self),
                scene == self.scene(),
                i <= self.modifiers@.len(),
                survived@ == modifiers_survived(self.modifiers@.take(i as int)),
                successors@ == modifiers_succeeding(self.modifiers@.take(i as int), scene),
                forall|k: int| 0 <= k < survived@.len() ==> self.modifier_ok(#[trigger] survived@[k]),
                forall|k: int| 0 <= k < successors@.len() ==> self.accepts(AppliableBox::Modifier(#[trigger] successors@[k])),
            decreases self.modifiers@.len() - i,
        {
            let mut modifier: Modifier = self.modifiers[i];

            proof {
                assert(self.modifiers@.take(i + 1).drop_last() =~= self.modifiers@.take(i as int));
                assert(self.modifier_ok(self.modifiers()[i as int]));
                modifier.lemma_decremented();
            }
            let is_survived: bool = modifier.decrement_duration();

            if is_survived {
                survived.push(modifier);
            } else {
                match modifier.get_next_id() {
                    Some(n) => {
                        proof {
                            self.lemma_scene_appliable(AppliableKind::Modifier(n));
                        }
                        successors.push(*self.scene.get_modifier(&n));
                    },
                    None => {},
                }
            }
            i += 1;
        }

        proof {
            assert(self.modifiers@.take(self.modifiers@.len() as int) =~= self.modifiers@);
        }
        let ghost before: Unit = *self;

        self.modifiers = survived;
        proof {
            before.lemma_wf_modifiers(self);
        }

        let mut kept: Vec<Attribute> = Vec::new();
        let mut i: usize = 0;

        while i < self.attributes.len()
            invariant
                i <= self.attributes@.len(),
                kept@ == attributes_survived(self.attributes@.take(i as int)),
            decreases self.attributes@.len() - i,
        {
            let mut attribute: Attribute = self.attributes[i];

            proof {
                assert(self.attributes@.take(i + 1).drop_last() =~= self.attributes@.take(i as int));
            }
            if attribute.decrement_duration() {
                kept.push(attribute);
            }
            i += 1;
        }

        proof {
            assert(self.attributes@.take(self.attributes@.len() as int) =~= self.attributes@);
        }
        let ghost before: Unit = *self;

        self.attributes = kept;
        proof {
            before.lemma_wf_frame(self);
        }

        let ghost skills_before: Seq<Skill> = self.skills@;
        let mut i: usize = 0;

        while i < self.skills.len()
            invariant
                self.wf(),
                before.same_identity(self),
                self.statistics() == before.statistics(),
                self.modifiers() == before.modifiers(),
                self.attributes() == attributes_survived(start.attributes),
                self.attribute_on_hit() == before.attribute_on_hit(),
                self.weapons() == before.weapons(),
                self.state().weapon_active == before.state().weapon_active,
                self.skill_passive() == before.skill_passive(),
                self.modifier_terrain() == before.modifier_terrain(),
                self.leader() == before.leader(),
                self.alive() == before.alive(),
                skills_before == before.skills(),
                self.skills@.len() == skills_before.len(),
                i <= skills_before.len(),
                forall|k: int| 0 <= k < i ==> self.skills@[k] == skill_decremented(#[trigger] skills_before[k]),
                forall|k: int| i <= k < skills_before.len() ==> self.skills@[k] == skills_before[k],
            decreases skills_before.len() - i,
        {
            let ghost inner: Unit = *self;

            proof {
                self.skills@[i as int].lemma_with_kind(SkillKind::Passive);
                assert(self.skills()[i as int].valid_in(self.scene()));
            }
            self.skills[i].decrement_duration();
            proof {
                let old_skill = inner.skills@[i as int];
                match old_skill.kind() {
                    SkillKind::Timed(c, m) => {
                        old_skill.lemma_with_kind(SkillKind::Timed((c - 1) as u16, m));
                    },
                    _ => {},
                }
                assert forall|k: int| 0 <= k < self.skills().len() implies {
                    &&& (#[trigger] self.skills()[k]).valid_in(self.scene())
                    &&& forall|j: int| 0 <= j < self.skills()[k].appliables().len() ==> #[trigger] self.skills()[k].appliables()[j] is Attribute
                } by {
                    assert(inner.skills()[k].valid_in(inner.scene()));
                    if k == i {
                        assert(self.skills()[k].appliables() == inner.skills()[k].appliables());
                    } else {
                        assert(self.skills()[k] == inner.skills()[k]);
                    }
                }
                assert forall|k: int| 0 <= k < self.modifiers().len() implies self.modifier_ok(#[trigger] self.modifiers()[k]) by {
                    assert(inner.modifier_ok(inner.modifiers()[k]));
                }
                assert forall|k: int| 0 <= k < self.weapons().len() implies (#[trigger] self.weapons()[k]).valid_in(self.scene()) by {
                    assert(inner.weapons()[k].valid_in(inner.scene()));
                }
                assert forall|k: int| 0 <= k < self.magic_ids().len() implies #[trigger] self.magic_ids()[k] < self.scene().magics().len() by {
                    assert(inner.magic_ids()[k] < inner.scene().magics().len());
                }
            }
            i += 1;
        }

        proof {
            assert(self.skills@ =~= skills_before.map_values(|s: Skill| skill_decremented(s)));
        }
        let ghost weapons_before: Seq<Weapon> = self.weapons@;
        let ghost middle: Unit = *self;
        let mut i: usize = 0;

        while i < self.weapons.len()
            invariant
                self.wf(),
                middle.same_identity(self),
                self.statistics() == middle.statistics(),
                self.modifiers() == middle.modifiers(),
                self.attributes() == middle.attributes(),
                self.attribute_on_hit() == middle.attribute_on_hit(),
                self.skills() == middle.skills(),
                self.state().weapon_active == middle.state().weapon_active,
                self.skill_passive() == middle.skill_passive(),
                self.modifier_terrain() == middle.modifier_terrain(),
                self.leader() == middle.leader(),
                self.alive() == middle.alive(),
                weapons_before == middle.weapons(),
                self.weapons@.len() == weapons_before.len(),
                i <= weapons_before.len(),
                forall|k: int| 0 <= k < i ==> self.weapons@[k] == weapon_decremented(#[trigger] weapons_before[k]),
                forall|k: int| i <= k < weapons_before.len() ==> self.weapons@[k] == weapons_before[k],
            decreases weapons_before.len() - i,
        {
            let ghost inner: Unit = *self;

            self.weapons[i].decrement_durations();
            proof {
                let old_weapon = inner.weapons@[i as int];
                assert(old_weapon.valid_in(inner.scene()));
                match old_weapon.attribute_on_attack() {
                    Some(a) => {
                        a.lemma_decremented();
                        old_weapon.lemma_with_attribute(if a.survives() { Some(a.decremented()) } else { None });
                    },
                    None => {},
                }
                assert forall|k: int| 0 <= k < self.weapons().len() implies (#[trigger] self.weapons()[k]).valid_in(self.scene()) by {
                    assert(inner.weapons()[k].valid_in(inner.scene()));
                }
                assert forall|k: int| 0 <= k < self.modifiers().len() implies self.modifier_ok(#[trigger] self.modifiers()[k]) by {
                    assert(inner.modifier_ok(inner.modifiers()[k]));
                }
                assert forall|k: int| 0 <= k < self.skills().len() implies {
                    &&& (#[trigger] self.skills()[k]).valid_in(self.scene())
                    &&& forall|j: int| 0 <= j < self.skills()[k].appliables().len() ==> #[trigger] self.skills()[k].appliables()[j] is Attribute
                } by {
                    assert(inner.skills()[k].valid_in(inner.scene()));
                }
                assert forall|k: int| 0 <= k < self.magic_ids().len() implies #[trigger] self.magic_ids()[k] < self.scene().magics().len() by {
                    assert(inner.magic_ids()[k] < inner.scene().magics().len());
                }
            }
            i += 1;
        }

        proof {
            assert(self.weapons@ =~= weapons_before.map_values(|w: Weapon| weapon_decremented(w)));
            assert(self.state() == UnitState {
                modifiers: modifiers_survived(start.modifiers),
                attributes: attributes_survived(start.attributes),
                skills: start.skills.map_values(|s: Skill| skill_decremented(s)),
                weapons: start.weapons.map_values(|w: Weapon| weapon_decremented(w)),
                ..start
            });
        }
        let ghost aged: UnitState = self.state();
        let mut i: usize = 0;

        proof {
            assert(successors@.take(0) =~= Seq::<Modifier>::empty());
        }
        while i < successors.len()
            invariant
                self.wf(),
                old(self).same_identity(self),
                scene == self.scene(),
                i <= successors@.len(),
                forall|k: int| 0 <= k < successors@.len() ==> self.modifier_ok(#[trigger] successors@[k]),
                self.state() == aged.modifiers_added(successors@.take(i as int)),
            decreases successors@.len() - i,
        {
            proof {
                assert(successors@.take(i + 1).drop_last() =~= successors@.take(i as int));
                assert(self.modifier_ok(successors@[i as int]));
            }
            self.add_appliable(AppliableBox::Modifier(successors[i]));
            i += 1;
        }

        proof {
            assert(successors@.take(successors@.len() as int) =~= successors@);
        }
    }
}

impl Unit {
    /// Puts in effect the attributes of the inactive skills: that of the passive skill the
    /// leader grants, then those of the toggled skills.
    pub fn apply_inactive_skills(&mut self)
        requires
            old(self).wf(),
            old(self).skill_passive() matches Some(s) ==> s < old(self).scene().skills().len(),
            forall|i: int| 0 <= i < inactive_attributes(old(self).state(), old(self).scene()).len()
                ==> (#[trigger] inactive_attributes(old(self).state(), old(self).scene())[i]).trigger() == Trigger::OnAttack
                ==> old(self).weapons().len() > 0,
        ensures
            final(self).wf(),
            old(self).same_identity(final(self)),
            final(self).state() == old(self).state().attributes_added(
                inactive_attributes(old(self).state(), old(self).scene()),
                old(self).scene(),
            ),
    {
        let ghost scene: Scene = self.scene();
        let ghost all: Seq<Attribute> = inactive_attributes(self.state(), scene);
        let ghost passive: Seq<Attribute> = match self.skill_passive() {
            Some(s) => seq![scene.attributes()[skill_attribute_id(scene.skills()[s as int]) as int]],
            None => Seq::empty(),
        };
        let ghost toggled: Seq<Attribute> = toggled_attributes(self.skills(), scene);

        proof {
            assert(all == passive + toggled);
            assert(all.take(0) =~= Seq::<Attribute>::empty());
        }
        if let Some(s) = self.skill_passive_id {
            proof {
                assert(scene.skill_wf(s as int));
                assert(scene.skills()[s as int].appliables()[0] is Attribute);
                let kind = scene.skills()[s as int].appliable();
                assert(scene.valid_kind(kind));
                assert(all.take(1) =~= seq![all[0]]);
                assert(all[0] == passive[0]);
            }
            let attribute_passive_id: ID = self.scene.get_skill(&s).get_attribute_id();
            let attribute_passive: Attribute = *self.scene.get_attribute(&attribute_passive_id);

            proof {
                scene.lemma_attribute_valid(attribute_passive_id as int);
                assert(scene.attribute_wf(attribute_passive_id as int));
                assert(all[0] == attribute_passive);
                assert(all.take(1).drop_last() =~= all.take(0));
            }
            self.add_attribute(attribute_passive);
            proof {
                assert(all.take(1).last() == all[0]);
                assert(all.take(1).drop_last().len() == 0);
                assert(old(self).state().attributes_added(all.take(1).drop_last(), scene) == old(self).state());
                assert(passive.len() == 1);
            }
        } else {
            proof {
                assert(passive.len() == 0);
                assert(all.take(0).len() == 0);
            }
        }

        let ghost done: int = passive.len() as int;
        let mut toggles: Vec<Attribute> = Vec::new();
        let mut i: usize = 0;

        while i < self.skills.len()
            invariant
                self.wf(),
                old(self).same_identity(self),
                self.weapons().len() == old(self).weapons().len(),
                all == passive + toggled,
                done == passive.len(),
                self.state() == old(self).state().attributes_added(all.take(done), scene),
                scene == self.scene(),
                i <= self.skills@.len(),
                self.skills() == old(self).skills(),
                toggles@ == toggled_attributes(self.skills().take(i as int), scene),
            decreases self.skills@.len() - i,
        {
            proof {
                assert(self.skills().take(i + 1).drop_last() =~= self.skills().take(i as int));
                assert(self.skills()[i as int].valid_in(scene));
            }
            if self.skills[i].is_toggled() {
                let attribute_id: ID = self.skills[i].get_attribute_id();

                proof {
                    let skill = self.skills()[i as int];
                    let j = skill.kind()->Toggled_0;
                    assert(skill.appliables()[j as int] is Attribute);
                    assert(scene.valid_kind(skill.appliables()[j as int]));
                }
                toggles.push(*self.scene.get_attribute(&attribute_id));
            }
            i += 1;
        }

        proof {
            assert(self.skills().take(self.skills().len() as int) =~= self.skills());
            assert forall|a: int| 0 <= a < self.skills().len() implies (#[trigger] self.skills()[a]).valid_in(scene) by {
                assert(self.skills()[a].valid_in(self.scene()));
            }
            assert forall|a: int, b: int| 0 <= a < self.skills().len() && 0 <= b < self.skills()[a].appliables().len()
                implies #[trigger] self.skills()[a].appliables()[b] is Attribute by {
                assert(self.skills()[a].valid_in(self.scene()));
            }
            lemma_toggled_attributes(self.skills(), scene);
        }
        let mut k: usize = 0;

        while k < toggles.len()
            invariant
                self.wf(),
                old(self).same_identity(self),
                scene == self.scene(),
                toggles@ == toggled,
                all == passive + toggled,
                done == passive.len(),
                k <= toggles@.len(),
                self.weapons().len() == old(self).weapons().len(),
                forall|j: int| 0 <= j < all.len() ==> (#[trigger] all[j]).trigger() == Trigger::OnAttack ==> old(self).weapons().len() > 0,
                forall|j: int| 0 <= j < toggled.len() ==> scene.valid_kind((#[trigger] toggled[j]).appliable_kind())
                    && !(toggled[j].appliable_kind() is Attribute),
                self.state() == old(self).state().attributes_added(all.take(done + k), scene),
            decreases toggles@.len() - k,
        {
            proof {
                assert(all.take(done + k + 1).drop_last() =~= all.take(done + k));
                assert(all[done + k] == toggled[k as int]);
                assert(all.take(done + k + 1).last() == toggled[k as int]);
            }
            self.add_attribute(toggles[k]);
            k += 1;
        }

        proof {
            assert(all.take(done + k) =~= all);
        }
    }

    /// Puts the modifier of the terrain the unit stands on in effect: removes the one of the
    /// terrain it stood on, if any, then adds the new one, if any.
    pub fn change_modifier_terrain(&mut self, modifier_terrain_id: Option<ID>)
        requires
            old(self).wf(),
            modifier_terrain_id matches Some(m) ==> m < old(self).scene().modifiers().len(),
        ensures
            final(self).wf(),
            old(self).same_identity(final(self)),
            ({
                let removed = match old(self).modifier_terrain() {
                    Some(m) => old(self).state().modifier_removed(m),
                    None => old(self).state(),
                };
                final(self).state() == match modifier_terrain_id {
                    Some(m) => UnitState { modifier_terrain: Some(m), ..removed }.appliable_added(
                        AppliableBox::Modifier(old(self).scene().modifiers()[m as int]),
                    ),
                    None => removed,
                }
            }),
    {
        if let Some(m) = self.modifier_terrain_id {
            self.remove_modifier(&m);
        }

        if let Some(m) = modifier_terrain_id {
            let modifier: Modifier = *self.scene.get_modifier(&m);
            let ghost removed: Unit = *self;

            self.modifier_terrain_id = Some(m);
            proof {
                removed.lemma_wf_frame(self);
                self.lemma_scene_appliable(AppliableKind::Modifier(m));
            }
            self.add_appliable(AppliableBox::Modifier(modifier));
        }
    }

    /// Sets the leader of a follower; a leader stays without one.
    pub fn set_leader_id(&mut self, leader_id: ID)
        requires
            old(self).wf(),
        ensures
            final(self).wf(),
            old(self).same_identity(final(self)),
            final(self).state() == (UnitState {
                leader: match old(self).leader() {
                    Some(..) => Some(leader_id),
                    None => None,
                },
                ..old(self).state()
            }),
    {
        self.leader_id = match self.leader_id {
            Some(..) => Some(leader_id),
            None => None,
        };
        proof {
            old(self).lemma_wf_frame(self);
        }
    }

    /// Grants a follower the passive skill `skill_id` of its leader at `distance`: too far away
    /// (beyond its cohesion in whole hundreds of percent), it loses the skill's attribute and the
    /// skill; near enough and without a passive skill, it takes the skill and its attribute. The
    /// result says whether the attribute took effect; a leader takes nothing.
    pub fn try_add_passive(&mut self, skill_id: &ID, distance: usize) -> (is_added: bool)
        requires
            old(self).wf(),
            *skill_id < old(self).scene().skills().len(),
            old(self).scene().attributes()[skill_attribute_id(old(self).scene().skills()[*skill_id as int]) as int].trigger()
                == Trigger::OnAttack ==> old(self).weapons().len() > 0,
        ensures
            final(self).wf(),
            old(self).same_identity(final(self)),
            ({
                let attribute_id = skill_attribute_id(old(self).scene().skills()[*skill_id as int]);
                let attribute = old(self).scene().attributes()[attribute_id as int];
                if old(self).leader() is None {
                    !is_added && final(self).state() == old(self).state()
                } else if distance > passive_threshold(old(self).statistics().value(UnitStatistic::ORG)) {
                    &&& !is_added
                    &&& final(self).state() == UnitState { skill_passive: None, ..old(self).state().attribute_removed(attribute_id) }
                } else if old(self).skill_passive() is None {
                    &&& is_added == UnitState::attribute_takes(attribute)
                    &&& final(self).state() == UnitState { skill_passive: Some(*skill_id), ..old(self).state() }.attribute_added(
                        attribute,
                        old(self).scene(),
                    )
                } else {
                    !is_added && final(self).state() == old(self).state()
                }
            }),
    {
        if self.leader_id.is_some() {
            proof {
                let scene = self.scene();
                assert(scene.skill_wf(*skill_id as int));
                assert(scene.skills()[*skill_id as int].appliables()[0] is Attribute);
                assert(scene.valid_kind(scene.skills()[*skill_id as int].appliable()));
            }
            let attribute_id: ID = self.scene.get_skill(skill_id).get_attribute_id();
            let org: u16 = self.get_statistic(UnitStatistic::ORG).0;
            let threshold: usize = THRESHOLD_SKILL_PASSIVE * ((org / PERCENT_100) as usize);

            if distance > threshold {
                self.remove_attribute(&attribute_id);
                let ghost removed: Unit = *self;
                self.skill_passive_id = None;
                proof {
                    removed.lemma_wf_frame(self);
                }

                false
            } else if self.skill_passive_id.is_none() {
                let attribute: Attribute = *self.scene.get_attribute(&attribute_id);

                self.skill_passive_id = Some(*skill_id);
                proof {
                    old(self).lemma_wf_frame(self);
                    self.scene().lemma_attribute_valid(attribute_id as int);
                    assert(self.scene().attribute_wf(attribute_id as int));
                }
                self.add_attribute(attribute)
            } else {
                false
            }
        } else {
            false
        }
    }

    /// Gets whether the unit retreats.
    pub fn is_retreat(&self) -> (is_retreat: bool)
        requires
            self.wf(),
        ensures
            is_retreat == self.statistics().retreats(),
    {
        self.statistics.is_retreat()
    }

    /// Gets whether the unit routs.
    pub fn is_rout(&self) -> (is_rout: bool)
        requires
            self.wf(),
        ensures
            is_rout == self.statistics().routs(),
    {
        self.statistics.is_rout()
    }

    /// Gets whether the unit was alive when last checked.
    pub fn is_alive(&self) -> (is_alive: bool)
        ensures
            is_alive == self.alive(),
    {
        self.is_alive
    }

    /// Applies once more the modifiers applied each turn, as copies applied once, then checks
    /// again whether the unit lives.
    pub fn start_turn(&mut self)
        requires
            old(self).wf(),
        ensures
            final(self).wf(),
            old(self).same_identity(final(self)),
            ({
                let reapplied = old(self).state().modifiers_added(modifiers_repeated(old(self).modifiers()));
                final(self).state() == reapplied.with_statistics(reapplied.statistics)
            }),
    {
        let mut repeated: Vec<Modifier> = Vec::new();
        let mut i: usize = 0;

        while i < self.modifiers.len()
            invariant
                self.wf(),
                *self == *old(self),
                i <= self.modifiers@.len(),
                repeated@ == modifiers_repeated(self.modifiers().take(i as int)),
                forall|k: int| 0 <= k < repeated@.len() ==> self.modifier_ok(#[trigger] repeated@[k]),
            decreases self.modifiers@.len() - i,
        {
            proof {
                assert(self.modifiers().take(i + 1).drop_last() =~= self.modifiers().take(i as int));
                assert(self.modifier_ok(self.modifiers()[i as int]));
                self.modifiers()[i as int].lemma_with_every_turn(false);
            }
            if self.modifiers[i].is_every_turn() {
                let mut modifier: Modifier = self.modifiers[i];

                modifier.set_is_every_turn(false);
                repeated.push(modifier);
            }
            i += 1;
        }

        proof {
            assert(self.modifiers().take(self.modifiers().len() as int) =~= self.modifiers());
            assert(repeated@.take(0) =~= Seq::<Modifier>::empty());
        }
        let mut k: usize = 0;

        while k < repeated.len()
            invariant
                self.wf(),
                old(self).same_identity(self),
                k <= repeated@.len(),
                repeated@ == modifiers_repeated(old(self).modifiers()),
                forall|j: int| 0 <= j < repeated@.len() ==> old(self).modifier_ok(#[trigger] repeated@[j]),
                self.state() == old(self).state().modifiers_added(repeated@.take(k as int)),
            decreases repeated@.len() - k,
        {
            proof {
                assert(repeated@.take(k + 1).drop_last() =~= repeated@.take(k as int));
                assert(old(self).modifier_ok(repeated@[k as int]));
            }
            self.add_appliable(AppliableBox::Modifier(repeated[k]));
            k += 1;
        }

        proof {
            assert(repeated@.take(k as int) =~= repeated@);
        }
        self.update_is_alive();
    }

    /// Switches to the next weapon, wrapping around; returns its position.
    pub fn switch_weapon(&mut self) -> (weapon_active: ID)
        requires
            old(self).wf(),
            old(self).weapons().len() > 0,
        ensures
            final(self).wf(),
            old(self).same_identity(final(self)),
            weapon_active == (old(self).weapon_active() + 1) % (old(self).weapons().len() as int),
            final(self).state() == (UnitState { weapon_active, ..old(self).state() }),
    {
        let count: usize = self.weapons.len();
        proof {
            assert(self.weapon_active < count);
        }
        self.weapon_active = (self.weapon_active + 1) % count;
        proof {
            old(self).lemma_wf_frame_weapon(self);
        }

        self.weapon_active
    }

    /// Gets the weapon in use.
    pub fn get_weapon(&self) -> (weapon: &Weapon)
        requires
            self.wf(),
            self.weapons().len() > 0,
        ensures
            *weapon == self.weapons()[self.weapon_active()],
    {
        &self.weapons[self.weapon_active]
    }

    /// Attacks: drains supply by 5.0% over the whole hundreds of percent of cohesion (all of it
    /// without any), and returns the manoeuvre and the weapon in use.
    pub fn act_attack(&mut self) -> (response: (u16, &Weapon))
        requires
            old(self).wf(),
            old(self).weapons().len() > 0,
        ensures
            final(self).wf(),
            old(self).same_identity(final(self)),
            final(self).state() == old(self).state().with_statistics(old(self).statistics().changed(
                UnitStatistic::SPL,
                attack_drain(old(self).statistics().value(UnitStatistic::ORG)),
                false,
            )),
            response.0 == final(self).statistics().value(UnitStatistic::MOV),
            *response.1 == final(self).weapons()[final(self).weapon_active()],
    {
        let org: u16 = self.get_statistic(UnitStatistic::ORG).0;
        let dividend: u16 = org / PERCENT_100;
        let drain_spl: u16 = if dividend == 0 {
            65535
        } else {
            DRAIN_SPL / dividend
        };

        self.change_statistic_flat(UnitStatistic::SPL, drain_spl, false);
        proof {
            assert(self.weapons().len() == old(self).weapons().len());
        }

        (self.get_statistic(UnitStatistic::MOV).0, self.get_weapon())
    }

    /// Takes damage to morale, manpower and supply, and returns the change to apply to the
    /// attacker, if the unit has an attribute on hit.
    pub fn take_damage(&mut self, damage_mrl: u16, damage_hlt: u16, damage_spl: u16) -> (appliable: Option<AppliableBox>)
        requires
            old(self).wf(),
        ensures
            final(self).wf(),
            old(self).same_identity(final(self)),
            final(self).state() == old(self).state().with_statistics(old(self).statistics()
                .changed(UnitStatistic::MRL, damage_mrl, false)
                .changed(UnitStatistic::HLT, damage_hlt, false)
                .changed(UnitStatistic::SPL, damage_spl, false)),
            appliable == match old(self).attribute_on_hit() {
                Some(a) => Some(old(self).scene().appliable_of(a.appliable_kind())),
                None => None::<AppliableBox>,
            },
    {
        self.change_statistic_flat(UnitStatistic::MRL, damage_mrl, false);
        self.change_statistic_flat(UnitStatistic::HLT, damage_hlt, false);
        self.change_statistic_flat(UnitStatistic::SPL, damage_spl, false);
        self.update_is_alive();

        self.try_yield_appliable(share_scene(&self.scene))
    }

    /// Starts the cooldown of the timed skill at `index`, unless it is already running.
    pub fn start_skill_cooldown(&mut self, index: usize)
        requires
            old(self).wf(),
            index < old(self).skills().len(),
            old(self).skills()[index as int].kind() is Timed,
        ensures
            final(self).wf(),
            old(self).same_identity(final(self)),
            final(self).state() == (UnitState {
                skills: old(self).skills().update(index as int, skill_used(old(self).skills()[index as int])),
                ..old(self).state()
            }),
    {
        self.skills[index].start_cooldown();
        proof {
            old(self).lemma_wf_skill(self, index as int);
        }
    }

    /// The position of the first skill of identifier `skill_id`, which the unit has.
    fn find_skill(&self, skill_id: &ID) -> (index: usize)
        requires
            exists|i: int| 0 <= i < self.skills().len() && (#[trigger] self.skills()[i]).id() == *skill_id,
        ensures
            index == skill_position(self.skills(), *skill_id),
            index < self.skills().len(),
    {
        let mut index: usize = 0;

        while index < self.skills.len()
            invariant
                index <= self.skills@.len(),
                forall|j: int| 0 <= j < index ==> self.skills@[j].id() != *skill_id,
                exists|i: int| 0 <= i < self.skills().len() && (#[trigger] self.skills()[i]).id() == *skill_id,
            ensures
                index <= self.skills@.len(),
                forall|j: int| 0 <= j < index ==> self.skills@[j].id() != *skill_id,
                index < self.skills@.len() ==> self.skills@[index as int].id() == *skill_id,
            decreases self.skills@.len() - index,
        {
            if self.skills[index].get_id() == *skill_id {
                break;
            }
            index += 1;
        }
        proof {
            if index == self.skills@.len() {
                let i = choose|i: int| 0 <= i < self.skills().len() && (#[trigger] self.skills()[i]).id() == *skill_id;
                assert(self.skills@[i].id() != *skill_id);
            }
            let c = skill_position(self.skills(), *skill_id);
            assert(self.skills()[index as int].id() == *skill_id && forall|j: int| 0 <= j < index ==> self.skills()[j].id() != *skill_id);
            if c < index {
                assert(self.skills()[c].id() != *skill_id);
            }
            if index < c {
                assert(self.skills()[index as int].id() != *skill_id);
            }
        }
        index
    }

    /// Uses the skill `skill_id`: a toggled skill moves to its next change and the attribute of
    /// its former one goes; a timed one starts its cooldown. Drains supply by 7.0%, and returns
    /// the manoeuvre and the skill. The unit must have the skill, and it must not be passive.
    pub fn act_skill(&mut self, skill_id: &ID) -> (response: (u16, &Skill))
        requires
            old(self).wf(),
            exists|i: int| 0 <= i < old(self).skills().len() && (#[trigger] old(self).skills()[i]).id() == *skill_id,
            !(old(self).skills()[skill_position(old(self).skills(), *skill_id)].kind() is Passive),
        ensures
            final(self).wf(),
            old(self).same_identity(final(self)),
            ({
                let i = skill_position(old(self).skills(), *skill_id);
                let skill = old(self).skills()[i];
                let used = UnitState { skills: old(self).skills().update(i, skill_used(skill)), ..old(self).state() };
                let after = if skill.kind() is Toggled { used.attribute_removed(skill_attribute_id(skill)) } else { used };
                &&& final(self).state() == after.with_statistics(after.statistics.changed(UnitStatistic::SPL, DRAIN_SPL_SKILL, false))
                &&& response.0 == final(self).statistics().value(UnitStatistic::MOV)
                &&& *response.1 == final(self).skills()[i]
            }),
    {
        let index: usize = self.find_skill(skill_id);
        proof {
            assert(self.skills()[index as int].valid_in(self.scene()));
        }
        let ghost skill: Skill = self.skills@[index as int];

        if self.skills[index].is_toggled() {
            let (attribute_old, attribute_new): (AppliableKind, AppliableKind) = self.skills[index].switch_attribute();
            let attribute_id_old: ID = match attribute_old {
                AppliableKind::Modifier(i) => i,
                AppliableKind::Effect(i) => i,
                AppliableKind::Attribute(i) => i,
            };

            proof {
                old(self).lemma_wf_skill(self, index as int);
            }
            self.remove_attribute(&attribute_id_old);
        } else {
            self.skills[index].start_cooldown();
            proof {
                old(self).lemma_wf_skill(self, index as int);
            }
        }

        self.change_statistic_flat(UnitStatistic::SPL, DRAIN_SPL_SKILL, false);
        proof {
            assert(self.skills().len() == old(self).skills().len());
        }

        (self.get_statistic(UnitStatistic::MOV).0, &self.skills[index])
    }

    /// Casts the magic `magic_id`: drains manpower by four times its cost beyond the magic (at
    /// least one), cohesion by ten times its cost beyond a tenth of the magic (at least 1.0%),
    /// and supply by 7.0%; returns the manoeuvre and the magic. The unit must know the magic.
    pub fn act_magic(&mut self, magic_id: &ID) -> (response: (u16, &Magic))
        requires
            old(self).wf(),
            old(self).magic_ids().contains(*magic_id),
            old(self).scene().magics()[*magic_id as int].cost() * PERCENT_1 <= 65535,
        ensures
            final(self).wf(),
            old(self).same_identity(final(self)),
            ({
                let cost = old(self).scene().magics()[*magic_id as int].cost();
                let mag = old(self).statistics().value(UnitStatistic::MAG);
                let statistics = old(self).statistics()
                    .changed(UnitStatistic::HLT, magic_drain_hlt(cost, mag), false)
                    .changed(UnitStatistic::ORG, magic_drain_org(cost, mag), false)
                    .changed(UnitStatistic::SPL, DRAIN_SPL_MAGIC, false);
                &&& final(self).state() == old(self).state().with_statistics(statistics)
                &&& response.0 == statistics.value(UnitStatistic::MOV)
                &&& *response.1 == old(self).scene().magics()[*magic_id as int]
            }),
    {
        proof {
            let k = choose|k: int| 0 <= k < self.magic_ids().len() && self.magic_ids()[k] == *magic_id;
            assert(self.magic_ids()[k] < self.scene().magics().len());
        }
        let mag: u16 = self.get_statistic(UnitStatistic::MAG).0;
        let cost: u16 = self.scene.get_magic(magic_id).get_cost();
        let drain_hlt: u16 = if cost * DRAIN_HLT > mag { cost * DRAIN_HLT - mag } else { 1 };
        let drain_org: u16 = if cost * PERCENT_1 > mag / PERCENT_1 + PERCENT_1 { cost * PERCENT_1 - mag / PERCENT_1 } else { PERCENT_1 };

        self.change_statistic_flat(UnitStatistic::HLT, drain_hlt, false);
        self.change_statistic_flat(UnitStatistic::ORG, drain_org, false);
        self.change_statistic_flat(UnitStatistic::SPL, DRAIN_SPL_MAGIC, false);
        self.update_is_alive();

        (self.get_statistic(UnitStatistic::MOV).0, self.scene.get_magic(magic_id))
    }

    /// Waits: drains supply by 3.3%, and returns the manoeuvre.
    pub fn act_wait(&mut self) -> (mov: u16)
        requires
            old(self).wf(),
        ensures
            final(self).wf(),
            old(self).same_identity(final(self)),
            final(self).state() == old(self).state().with_statistics(
                old(self).statistics().changed(UnitStatistic::SPL, DRAIN_SPL_WAIT, false),
            ),
            mov == final(self).statistics().value(UnitStatistic::MOV),
    {
        self.change_statistic_flat(UnitStatistic::SPL, DRAIN_SPL_WAIT, false);

        self.get_statistic(UnitStatistic::MOV).0
    }

    /// Recovers, unless retreating, the manpower and equipment of the cities of `city_ids`
    /// that supply the unit.
    pub fn recover_supplies(&mut self, city_ids: &[ID])
        requires
            old(self).wf(),
            forall|i: int| 0 <= i < city_ids@.len() ==> #[trigger] city_ids@[i] < old(self).scene().cities().len(),
            manpower_total(old(self).scene(), city_ids@) <= 64535,
            equipment_total(old(self).scene(), city_ids@) <= 64535,
        ensures
            final(self).wf(),
            old(self).same_identity(final(self)),
            final(self).state() == if !old(self).statistics().retreats() && city_ids@.len() > 0 {
                let statistics = old(self).statistics()
                    .changed(UnitStatistic::HLT, manpower_total(old(self).scene(), city_ids@) as u16, true)
                    .changed(UnitStatistic::SPL, equipment_total(old(self).scene(), city_ids@) as u16, true);
                old(self).state().with_statistics(statistics)
            } else {
                old(self).state()
            },
    {
        if !self.is_retreat() && city_ids.len() > 0 {
            let mut recover_hlt: u16 = 0;
            let mut recover_spl: u16 = 0;
            let mut i: usize = 0;

            while i < city_ids.len()
                invariant
                    self.wf(),
                    *self == *old(self),
                    i <= city_ids@.len(),
                    forall|k: int| 0 <= k < city_ids@.len() ==> #[trigger] city_ids@[k] < self.scene().cities().len(),
                    manpower_total(self.scene(), city_ids@) <= 64535,
                    equipment_total(self.scene(), city_ids@) <= 64535,
                    recover_hlt == manpower_total(self.scene(), city_ids@.take(i as int)),
                    recover_spl == equipment_total(self.scene(), city_ids@.take(i as int)),
                decreases city_ids@.len() - i,
            {
                proof {
                    assert(city_ids@.take(i + 1).drop_last() =~= city_ids@.take(i as int));
                    self.lemma_totals_bounded(city_ids@, i as int + 1);
                    assert(self.scene().cities()[city_ids@[i as int] as int].wf());
                }
                let city: &crate::map::City = self.scene.get_city(&city_ids[i]);
                let change_hlt: u16 = city.get_manpower();
                let change_spl: u16 = city.get_equipment();

                recover_hlt += change_hlt;
                recover_spl += change_spl;
                i += 1;
            }

            proof {
                assert(city_ids@.take(city_ids@.len() as int) =~= city_ids@);
                self.statistics().lemma_bounds(UnitStatistic::HLT);
                self.statistics().lemma_bounds(UnitStatistic::SPL);
            }
            self.change_statistic_flat(UnitStatistic::HLT, recover_hlt, true);
            proof {
                self.statistics().lemma_bounds(UnitStatistic::SPL);
            }
            self.change_statistic_flat(UnitStatistic::SPL, recover_spl, true);
        }
    }

    /// Ends the turn: recovers supplies from `city_ids`, recovers 5.0% morale, ages the changes
    /// in effect, applies `appliable` if any, and checks again whether the unit lives.
    pub fn end_turn(&mut self, city_ids: &[ID], appliable: Option<AppliableBox>)
        requires
            old(self).wf(),
            forall|i: int| 0 <= i < city_ids@.len() ==> #[trigger] city_ids@[i] < old(self).scene().cities().len(),
            manpower_total(old(self).scene(), city_ids@) <= 64535,
            equipment_total(old(self).scene(), city_ids@) <= 64535,
            appliable matches Some(a) ==> match a {
                AppliableBox::Modifier(m) => old(self).modifier_ok(m),
                AppliableBox::Effect(e) => adjustments_ok(e.adjustments()),
                AppliableBox::Attribute(..) => false,
            },
        ensures
            final(self).wf(),
            old(self).same_identity(final(self)),
            ({
                let recovered = if !old(self).statistics().retreats() && city_ids@.len() > 0 {
                    old(self).state().with_statistics(old(self).statistics()
                        .changed(UnitStatistic::HLT, manpower_total(old(self).scene(), city_ids@) as u16, true)
                        .changed(UnitStatistic::SPL, equipment_total(old(self).scene(), city_ids@) as u16, true))
                } else {
                    old(self).state()
                };
                let rallied = recovered.with_statistics(recovered.statistics.changed(UnitStatistic::MRL, RECOVER_MRL, true));
                let aged = rallied.decremented(old(self).scene());
                let applied = match appliable {
                    Some(a) => aged.appliable_added(a),
                    None => aged,
                };
                final(self).state() == applied.with_statistics(applied.statistics)
            }),
    {
        self.recover_supplies(city_ids);
        proof {
            self.statistics().lemma_bounds(UnitStatistic::MRL);
        }
        self.change_statistic_flat(UnitStatistic::MRL, RECOVER_MRL, true);
        self.decrement_durations();

        if let Some(a) = appliable {
            self.add_appliable(a);
        }

        self.update_is_alive();
    }

    /// Gets the identifier.
    pub fn get_id(&self) -> (id: ID)
        ensures
            id == self.id(),
    {
        self.id
    }

    /// Gets the statistics.
    pub fn get_statistics(&self) -> (statistics: UnitStatistics)
        ensures
            statistics == self.statistics(),
    {
        self.statistics
    }

    /// Gets the faction.
    pub fn get_faction_id(&self) -> (faction_id: ID)
        ensures
            faction_id == self.faction(),
    {
        self.faction_id
    }

    /// Gets the passive skill that the leader grants.
    pub fn get_skill_passive_id(&self) -> (skill_passive_id: Option<ID>)
        ensures
            skill_passive_id == self.skill_passive(),
    {
        self.skill_passive_id
    }

    /// Gets the identifiers of the skills, in order.
    pub fn get_skill_ids(&self) -> (skill_ids: Vec<ID>)
        ensures
            skill_ids@ == self.skills().map_values(|s: Skill| s.id()),
    {
        let mut skill_ids: Vec<ID> = Vec::new();
        let mut i: usize = 0;

        while i < self.skills.len()
            invariant
                i <= self.skills@.len(),
                skill_ids@ == self.skills().take(i as int).map_values(|s: Skill| s.id()),
            decreases self.skills@.len() - i,
        {
            skill_ids.push(self.skills[i].get_id());
            proof {
                assert(self.skills().take(i + 1) =~= self.skills().take(i as int).push(self.skills()[i as int]));
                assert(skill_ids@ =~= self.skills().take(i + 1).map_values(|s: Skill| s.id()));
            }
            i += 1;
        }

        proof {
            assert(self.skills().take(self.skills().len() as int) =~= self.skills());
        }
        skill_ids
    }

    /// Gets the identifiers of the skills that can be used now: timed skills off cooldown and
    /// toggled skills, in order.
    pub fn get_skill_ids_actionable(&self) -> (skill_ids: Vec<ID>)
        requires
            self.wf(),
        ensures
            skill_ids@ == actionable_ids(self.skills()),
    {
        let mut skill_ids: Vec<ID> = Vec::new();
        let mut i: usize = 0;

        while i < self.skills.len()
            invariant
                self.wf(),
                i <= self.skills@.len(),
                skill_ids@ == actionable_ids(self.skills().take(i as int)),
            decreases self.skills@.len() - i,
        {
            proof {
                assert(self.skills().take(i + 1).drop_last() =~= self.skills().take(i as int));
                assert(self.skills()[i as int].valid_in(self.scene()));
            }
            let skill: &Skill = &self.skills[i];

            if skill.is_timed() {
                if skill.try_yield_appliable(share_scene(&self.scene)).is_some() {
                    skill_ids.push(skill.get_id());
                }
            } else if skill.is_toggled() {
                skill_ids.push(skill.get_id());
            }
            i += 1;
        }

        proof {
            assert(self.skills().take(self.skills().len() as int) =~= self.skills());
        }
        skill_ids
    }

    /// Gets the magics the unit may use.
    pub fn get_magic_ids(&self) -> (magic_ids: &[ID])
        ensures
            magic_ids@ == self.magic_ids(),
    {
        self.magic_ids.as_slice()
    }

    /// Gets the leader: its own identifier for a leader.
    pub fn get_leader_id(&self) -> (leader_id: ID)
        ensures
            leader_id == match self.leader() {
                Some(l) => l,
                None => self.id(),
            },
    {
        match self.leader_id {
            Some(l) => l,
            None => self.id,
        }
    }

    /// Gets the leader of a follower.
    pub fn get_leader(&self) -> (leader: Option<ID>)
        ensures
            leader == self.leader(),
    {
        self.leader_id
    }

    /// Gets the modifier of the terrain the unit last stood on.
    pub fn get_modifier_terrain_id(&self) -> (modifier_terrain_id: Option<ID>)
        ensures
            modifier_terrain_id == self.modifier_terrain(),
    {
        self.modifier_terrain_id
    }

    /// Gets the modifiers in effect, in order.
    pub fn get_modifiers(&self) -> (modifiers: &[Modifier])
        ensures
            modifiers@ == self.modifiers(),
    {
        self.modifiers.as_slice()
    }

    /// Gets the attributes always in effect, in order.
    pub fn get_attributes(&self) -> (attributes: &[Attribute])
        ensures
            attributes@ == self.attributes(),
    {
        self.attributes.as_slice()
    }

    /// Gets the attribute on hit.
    pub fn get_attribute_on_hit(&self) -> (attribute: Option<Attribute>)
        ensures
            attribute == self.attribute_on_hit(),
    {
        self.attribute_on_hit
    }

    /// Gets the skills, in order.
    pub fn get_skills(&self) -> (skills: &[Skill])
        ensures
            skills@ == self.skills(),
    {
        self.skills.as_slice()
    }

    /// Gets the weapons, in order.
    pub fn get_weapons(&self) -> (weapons: &[Weapon])
        ensures
            weapons@ == self.weapons(),
    {
        self.weapons.as_slice()
    }

    /// Consistency survives a change of the weapon in use to another of the weapons.
    proof fn lemma_wf_frame_weapon(&self, other: &Unit)
        requires
            self.wf(),
            self.same_identity(other),
            other.state() == (UnitState { weapon_active: other.state().weapon_active, ..self.state() }),
            other.weapon_active() < other.weapons().len(),
        ensures
            other.wf(),
    {
        assert forall|i: int| 0 <= i < other.modifiers().len() implies other.modifier_ok(#[trigger] other.modifiers()[i]) by {
            assert(self.modifier_ok(self.modifiers()[i]));
        }
        assert forall|i: int| 0 <= i < other.weapons().len() implies (#[trigger] other.weapons()[i]).valid_in(other.scene()) by {
            assert(self.weapons()[i].valid_in(self.scene()));
        }
        assert forall|i: int| 0 <= i < other.skills().len() implies {
            &&& (#[trigger] other.skills()[i]).valid_in(other.scene())
            &&& forall|j: int| 0 <= j < other.skills()[i].appliables().len() ==> #[trigger] other.skills()[i].appliables()[j] is Attribute
        } by {
            assert(self.skills()[i].valid_in(self.scene()));
        }
        assert forall|i: int| 0 <= i < other.magic_ids().len() implies #[trigger] other.magic_ids()[i] < other.scene().magics().len() by {
            assert(self.magic_ids()[i] < self.scene().magics().len());
        }
    }

    /// Consistency survives using the skill at `index`, which changes nothing but that skill.
    proof fn lemma_wf_skill(&self, other: &Unit, index: int)
        requires
            self.wf(),
            self.same_identity(other),
            0 <= index < self.skills().len(),
            other.state() == (UnitState { skills: self.skills().update(index, skill_used(self.skills()[index])), ..self.state() }),
        ensures
            other.wf(),
    {
        let skill = self.skills()[index];
        assert(skill.valid_in(self.scene()));
        match skill.kind() {
            SkillKind::Toggled(i) => skill.lemma_with_kind(SkillKind::Toggled(((i + 1) as int % (skill.appliables().len() as int)) as usize)),
            SkillKind::Timed(c, m) => skill.lemma_with_kind(SkillKind::Timed(m, m)),
            SkillKind::Passive => {},
        }
        assert forall|i: int| 0 <= i < other.modifiers().len() implies other.modifier_ok(#[trigger] other.modifiers()[i]) by {
            assert(self.modifier_ok(self.modifiers()[i]));
        }
        assert forall|i: int| 0 <= i < other.weapons().len() implies (#[trigger] other.weapons()[i]).valid_in(other.scene()) by {
            assert(self.weapons()[i].valid_in(self.scene()));
        }
        assert forall|i: int| 0 <= i < other.skills().len() implies {
            &&& (#[trigger] other.skills()[i]).valid_in(other.scene())
            &&& forall|j: int| 0 <= j < other.skills()[i].appliables().len() ==> #[trigger] other.skills()[i].appliables()[j] is Attribute
        } by {
            assert(self.skills()[i].valid_in(self.scene()));
        }
        assert forall|i: int| 0 <= i < other.magic_ids().len() implies #[trigger] other.magic_ids()[i] < other.scene().magics().len() by {
            assert(self.magic_ids()[i] < self.scene().magics().len());
        }
    }

    /// The running totals of the cities' supplies stay within the whole totals.
    proof fn lemma_totals_bounded(&self, city_ids: Seq<ID>, n: int)
        requires
            0 <= n <= city_ids.len(),
        ensures
            manpower_total(self.scene(), city_ids.take(n)) <= manpower_total(self.scene(), city_ids),
            equipment_total(self.scene(), city_ids.take(n)) <= equipment_total(self.scene(), city_ids),
            manpower_total(self.scene(), city_ids.take(n)) >= 0,
            equipment_total(self.scene(), city_ids.take(n)) >= 0,
        decreases city_ids.len() - n,
    {
        if n == city_ids.len() {
            assert(city_ids.take(n) =~= city_ids);
            lemma_totals_nonnegative(self.scene(), city_ids);
        } else {
            self.lemma_totals_bounded(city_ids, n + 1);
            assert(city_ids.take(n + 1).drop_last() =~= city_ids.take(n));
            lemma_totals_nonnegative(self.scene(), city_ids.take(n));
        }
    }
}

/// Supply totals are never negative.
proof fn lemma_totals_nonnegative(scene: Scene, city_ids: Seq<ID>)
    ensures
        manpower_total(scene, city_ids) >= 0,
        equipment_total(scene, city_ids) >= 0,
    decreases city_ids.len(),
{
    if city_ids.len() > 0 {
        lemma_totals_nonnegative(scene, city_ids.drop_last());
    }
}

/// The identifiers of the skills that can be used now: timed skills off cooldown and toggled
/// skills, in order.
pub open spec fn actionable_ids(skills: Seq<Skill>) -> Seq<ID>
    decreases skills.len(),
{
    if skills.len() == 0 {
        Seq::empty()
    } else {
        let previous = actionable_ids(skills.drop_last());
        let skill = skills.last();
        let is_actionable = match skill.kind() {
            SkillKind::Timed(c, _) => c == 0,
            SkillKind::Toggled(..) => true,
            SkillKind::Passive => false,
        };
        if is_actionable { previous.push(skill.id()) } else { previous }
    }
}

} // verus!

verus! {

/// The description of a unit, built into a unit of a scene.
#[derive(Debug)]
pub struct UnitBuilder {
    id: ID,
    statistics: UnitStatistics,
    weapon_ids: Vec<ID>,
    skill_passive_id: Option<ID>,
    skill_ids: Vec<ID>,
    magics_usable: [bool; 3],
    faction_id: ID,
    leader_id: Option<ID>,
}

impl UnitBuilder {
    /// The identifier.
    pub closed spec fn id(&self) -> ID {
        self.id
    }

    /// The starting statistics.
    pub closed spec fn statistics(&self) -> UnitStatistics {
        self.statistics
    }

    /// The weapons.
    pub closed spec fn weapon_ids(&self) -> Seq<ID> {
        self.weapon_ids@
    }

    /// The passive skill the unit grants its followers.
    pub closed spec fn skill_passive(&self) -> Option<ID> {
        self.skill_passive_id
    }

    /// The skills.
    pub closed spec fn skill_ids(&self) -> Seq<ID> {
        self.skill_ids@
    }

    /// Which elements of magic the unit can use, indexed by `Element::index`.
    pub open spec fn magics_usable(&self) -> Seq<bool> {
        self.elements_usable()@
    }

    /// Which elements of magic the unit can use, as given.
    pub closed spec fn elements_usable(&self) -> [bool; 3] {
        self.magics_usable
    }

    /// The faction.
    pub closed spec fn faction(&self) -> ID {
        self.faction_id
    }

    /// The leader: none for a leader; for a follower, the leader (or none yet assigned).
    pub closed spec fn leader(&self) -> Option<ID> {
        self.leader_id
    }

    /// Creates a unit builder.
    pub fn new(
        id: ID,
        statistics: UnitStatistics,
        weapon_ids: Vec<ID>,
        skill_passive_id: Option<ID>,
        skill_ids: Vec<ID>,
        magics_usable: [bool; 3],
        faction_id: ID,
        leader_id: Option<ID>,
    ) -> (builder: Self)
        ensures
            builder.id() == id,
            builder.statistics() == statistics,
            builder.weapon_ids() == weapon_ids@,
            builder.skill_passive() == skill_passive_id,
            builder.skill_ids() == skill_ids@,
            builder.magics_usable() == magics_usable@,
            builder.faction() == faction_id,
            builder.leader() == leader_id,
    {
        Self { id, statistics, weapon_ids, skill_passive_id, skill_ids, magics_usable, faction_id, leader_id }
    }

    /// Builds the unit it describes in `scene`, which must hold its weapons and skills.
    pub fn build(&self, scene: Rc<Scene>) -> (unit: Unit)
        requires
            scene.wf(),
            self.statistics().wf(),
            forall|i: int| 0 <= i < self.weapon_ids().len() ==> #[trigger] self.weapon_ids()[i] < scene.weapons().len(),
            forall|i: int| 0 <= i < self.skill_ids().len() ==> #[trigger] self.skill_ids()[i] < scene.skills().len(),
        ensures
            unit.wf(),
            unit.id() == self.id(),
            unit.scene() == *scene,
            unit.statistics() == self.statistics(),
            unit.modifier_terrain() == None::<ID>,
            unit.modifiers() == Seq::<Modifier>::empty(),
            unit.attributes() == Seq::<Attribute>::empty(),
            unit.attribute_on_hit() == None::<Attribute>,
            unit.weapons() == self.weapon_ids().map_values(|w: ID| scene.weapons()[w as int]),
            unit.skill_passive() == self.skill_passive(),
            unit.skills() == self.skill_ids().map_values(|s: ID| scene.skills()[s as int]),
            unit.magic_ids() == usable_magic_ids(
                scene.magics(),
                self.elements_usable(),
                self.statistics().value(UnitStatistic::MAG),
            ),
            unit.weapon_active() == 0,
            unit.faction() == self.faction(),
            unit.leader() == self.leader(),
            unit.alive(),
    {
        let weapon_ids: &[ID] = self.weapon_ids.as_slice();
        let skill_ids: &[ID] = self.skill_ids.as_slice();
        proof {
            assert(weapon_ids@ == self.weapon_ids());
            assert(skill_ids@ == self.skill_ids());
        }
        Unit::new(
            self.id,
            scene,
            self.statistics,
            weapon_ids,
            self.skill_passive_id,
            skill_ids,
            &self.magics_usable,
            self.faction_id,
            self.leader_id,
        )
    }

    /// Gets the identifier.
    pub fn get_id(&self) -> (id: ID)
        ensures
            id == self.id(),
    {
        self.id
    }

    /// Gets the faction.
    pub fn get_faction_id(&self) -> (faction_id: ID)
        ensures
            faction_id == self.faction(),
    {
        self.faction_id
    }
}

/// A routing unit is also retreating: the rout threshold lies below the retreat threshold.
pub proof fn law_rout_implies_retreat(statistics: UnitStatistics)
    ensures
        statistics.routs() ==> statistics.retreats(),
{
}

/// A flat change undone by the opposite change gives back the value, as long as neither change
/// is cut off at zero or at the maximum.
pub proof fn law_flat_change_undone(current: u16, maximum: u16, change: u16)
    requires
        current <= maximum,
    ensures
        current + change < maximum ==> flat_changed(flat_changed(current, maximum, change, true), maximum, change, false) == current,
        change <= current ==> flat_changed(flat_changed(current, maximum, change, false), maximum, change, true) == current,
{
}

/// A flat change keeps a value within zero and the maximum.
pub proof fn law_flat_change_bounded(current: u16, maximum: u16, change: u16, is_add: bool)
    requires
        current <= maximum,
    ensures
        flat_changed(current, maximum, change, is_add) <= maximum,
        is_add ==> flat_changed(current, maximum, change, is_add) >= current,
        !is_add ==> flat_changed(current, maximum, change, is_add) <= current,
{
}

/// A change of a hundred percent is the whole base, and of nothing is nothing.
pub proof fn law_percentage_whole(base: u16)
    ensures
        percentage_amount(base, 100) == base,
        percentage_amount(base, 0) == 0,
{
}

/// A retreating or routing defender takes at least as much damage to manpower and supply as a
/// fighting one.
pub proof fn law_defeat_factor(defender: UnitStatistics)
    ensures
        UnitStatistics::defeat_factor(defender) >= 1,
        defender.retreats() ==> UnitStatistics::defeat_factor(defender) == FACTOR_RETREAT,
        !defender.retreats() ==> UnitStatistics::defeat_factor(defender) == FACTOR_FIGHT,
{
}

/// A percentage change of a statistic is undone by the same change the other way, as long as
/// it was not cut off at the maximum or at zero: this is how removing a modifier undoes it.
pub proof fn law_percentage_undone(statistics: UnitStatistics, statistic: UnitStatistic, change: u16, is_add: bool)
    requires
        statistics.wf(),
        statistic != UnitStatistic::Length,
        is_add ==> statistics.value(statistic) + percentage_amount(statistics.capacity(statistic).base(), change)
            < statistic.maximum(),
        !is_add ==> percentage_amount(statistics.capacity(statistic).base(), change) <= statistics.value(statistic),
    ensures
        statistics.percent_changed(statistic, change, is_add).percent_changed(statistic, change, !is_add) == statistics,
{
    let value = statistics.value(statistic);
    let amount = percentage_amount(statistics.capacity(statistic).base(), change);
    let moved: u16 = if is_add { (value + amount) as u16 } else { (value - amount) as u16 };
    let changed = statistics.percent_changed(statistic, change, is_add);
    statistics.lemma_with_value(statistic, moved);
    assert(changed == statistics.with_value(statistic, moved));
    assert(changed.value(statistic) == moved);
    assert(changed.capacity(statistic).base() == statistics.capacity(statistic).base());
    assert(statistics.statistic_wf(statistic));
    let back = changed.percent_changed(statistic, change, !is_add);
    assert(back == changed.with_value(statistic, value));
    changed.lemma_with_value(statistic, value);
    assert forall|s: UnitStatistic| s != statistic && s != UnitStatistic::Length
        implies #[trigger] back.capacity(s) == statistics.capacity(s) by {
        assert(back.capacity(s) == changed.capacity(s));
        assert(changed.capacity(s) == statistics.capacity(s));
    }
    assert(statistics.is_set(back, statistic, value));
    statistics.lemma_is_set(back, statistic, value);
    assert(statistics.is_set(statistics, statistic, value));
    statistics.lemma_is_set(statistics, statistic, value);
}

/// Removing a modifier just added to a unit that had none of its identifier gives back the
/// unit's state, when the modifier changes one constant statistic by a percentage that is not
/// cut off at the maximum or at zero.
pub proof fn law_modifier_added_removed(state: UnitState, modifier: Modifier)
    requires
        state.statistics.wf(),
        state.alive == lives(state.statistics),
        !has_modifier(state.modifiers, modifier.id()),
        modifier.adjustments().len() == 1,
        modifier.adjustments()[0].0 matches StatisticKind::Unit(s) && is_constant(s) && ({
            let amount = percentage_amount(state.statistics.capacity(s).base(), modifier.adjustments()[0].1);
            if modifier.adjustments()[0].2 {
                state.statistics.value(s) + amount < s.maximum()
            } else {
                amount <= state.statistics.value(s)
            }
        }),
    ensures
        state.appliable_added(AppliableBox::Modifier(modifier)).modifier_removed(modifier.id()) == state,
{
    let (kind, change, is_add) = modifier.adjustments()[0];
    let s = kind->Unit_0;
    let adjustments = modifier.adjustments();
    let added = state.appliable_added(AppliableBox::Modifier(modifier));
    assert(adjustments.drop_last().len() == 0);
    assert(adjustments.last() == adjustments[0]);
    assert(adjustments_applied(state.statistics, adjustments.drop_last(), false) == state.statistics);
    assert(adjustments_applied(state.statistics, adjustments, false)
        == state.statistics.percent_changed(s, change, is_add));
    law_percentage_undone(state.statistics, s, change, is_add);
    let n = state.modifiers.len() as int;
    assert(added.modifiers == state.modifiers.push(modifier));
    assert(has_modifier(added.modifiers, modifier.id())) by {
        assert(added.modifiers[n].id() == modifier.id());
    }
    let i = modifier_position(added.modifiers, modifier.id())->Some_0;
    assert(i == n) by {
        if i < n {
            assert(added.modifiers[i] == state.modifiers[i]);
        }
    }
    assert(swap_removed(added.modifiers, n) =~= state.modifiers);
    assert(added.modifiers[n].adjustments() == adjustments);
    assert(adjustments_reverted(added.statistics, adjustments.drop_last()) == added.statistics);
    assert(adjustments_reverted(added.statistics, adjustments) == state.statistics);
    assert(touches_constant(adjustments)) by {
        assert(is_constant_adjustment(adjustments[0]));
    }
}

/// Adding a modifier that does not stack while one of its identifier is in effect changes
/// nothing and is refused; any other modifier is added at the end and changes the statistics
/// by percentages; an effect is always taken.
pub proof fn law_modifier_stacking(state: UnitState, modifier: Modifier, effect: Effect)
    ensures
        !modifier.stacks() && has_modifier(state.modifiers, modifier.id()) ==> {
            &&& !state.takes(AppliableBox::Modifier(modifier))
            &&& state.appliable_added(AppliableBox::Modifier(modifier)) == state
        },
        modifier.stacks() || !has_modifier(state.modifiers, modifier.id()) ==> {
            &&& state.takes(AppliableBox::Modifier(modifier))
            &&& state.appliable_added(AppliableBox::Modifier(modifier)).modifiers == state.modifiers.push(modifier)
            &&& state.appliable_added(AppliableBox::Modifier(modifier)).statistics
                == adjustments_applied(state.statistics, modifier.adjustments(), false)
        },
        state.takes(AppliableBox::Effect(effect)),
{
}

/// The damage to morale is the base damage times one more than the weapon's piercing, plus the
/// magical damage times one more than its decay; it does not depend on the weapon's slash,
/// which only multiplies the damage to manpower. The damage to manpower and to supply is
/// multiplied by how defeated the defender is.
pub proof fn law_damage_weapon_roles(attacker: UnitStatistics, defender: UnitStatistics, weapon: Weapon, other: Weapon)
    requires
        other.statistic(WeaponStatistic::DMG) == weapon.statistic(WeaponStatistic::DMG),
        other.statistic(WeaponStatistic::PRC) == weapon.statistic(WeaponStatistic::PRC),
        other.statistic(WeaponStatistic::DCY) == weapon.statistic(WeaponStatistic::DCY),
    ensures
        UnitStatistics::damage(attacker, defender, weapon).0
            == UnitStatistics::base_damage(attacker, defender, weapon) * (weapon.statistic(WeaponStatistic::PRC) + 1)
            + UnitStatistics::magic_damage(attacker, defender, weapon) * (weapon.statistic(WeaponStatistic::DCY) + 1),
        UnitStatistics::damage(attacker, defender, weapon).1
            == (UnitStatistics::base_damage(attacker, defender, weapon) * (weapon.statistic(WeaponStatistic::SLH) + 1)
            + UnitStatistics::magic_damage(attacker, defender, weapon)) * UnitStatistics::defeat_factor(defender),
        UnitStatistics::damage(attacker, defender, weapon).2
            == (UnitStatistics::base_damage(attacker, defender, weapon)
            + UnitStatistics::magic_damage(attacker, defender, weapon)) * UnitStatistics::defeat_factor(defender),
        UnitStatistics::damage(attacker, defender, other).0 == UnitStatistics::damage(attacker, defender, weapon).0,
        UnitStatistics::damage(attacker, defender, other).2 == UnitStatistics::damage(attacker, defender, weapon).2,
        UnitStatistics::damage(attacker, defender, other).1 - UnitStatistics::damage(attacker, defender, weapon).1
            == UnitStatistics::base_damage(attacker, defender, weapon) * UnitStatistics::defeat_factor(defender)
            * (other.statistic(WeaponStatistic::SLH) - weapon.statistic(WeaponStatistic::SLH)),
{
    let base = UnitStatistics::base_damage(attacker, defender, weapon);
    let factor = UnitStatistics::defeat_factor(defender);
    let a = other.statistic(WeaponStatistic::SLH) as int;
    let b = weapon.statistic(WeaponStatistic::SLH) as int;
    let magic = UnitStatistics::magic_damage(attacker, defender, weapon);
    assert((base * (a + 1) + magic) * factor - (base * (b + 1) + magic) * factor == base * factor * (a - b))
        by (nonlinear_arith);
}

/// The manpower drained by casting a magic is four times its cost less the caster's magic, and
/// at least one: more magic never drains more, and drains strictly less while the drain is
/// above one.
pub proof fn law_magic_drain_manpower(cost: u16, mag: u16, more: u16)
    requires
        cost * DRAIN_HLT <= 65535,
        mag <= more,
    ensures
        magic_drain_hlt(cost, mag) >= 1,
        magic_drain_hlt(cost, mag) >= cost * DRAIN_HLT - mag,
        magic_drain_hlt(cost, mag) == 1 || magic_drain_hlt(cost, mag) + mag == cost * DRAIN_HLT,
        magic_drain_hlt(cost, more) <= magic_drain_hlt(cost, mag),
        mag < more && magic_drain_hlt(cost, mag) > 1 ==> magic_drain_hlt(cost, more) < magic_drain_hlt(cost, mag),
{
}

/// The cohesion drained by casting a magic is ten times its cost less a tenth of the caster's
/// magic, and at least 1.0%: more magic never drains more.
pub proof fn law_magic_drain_cohesion(cost: u16, mag: u16, more: u16)
    requires
        cost * PERCENT_1 <= 65535,
        mag <= more,
    ensures
        magic_drain_org(cost, mag) >= PERCENT_1,
        magic_drain_org(cost, mag) >= cost * PERCENT_1 - mag / PERCENT_1,
        magic_drain_org(cost, mag) == PERCENT_1 || magic_drain_org(cost, mag) + mag / PERCENT_1 == cost * PERCENT_1,
        magic_drain_org(cost, more) <= magic_drain_org(cost, mag),
{
}

/// The supply an attack drains is 5.0% divided by the whole hundreds of percent of cohesion,
/// rounded down, and all of it without a whole hundred: it never grows as cohesion grows.
pub proof fn law_attack_drain(org: u16, more: u16)
    requires
        org <= more,
    ensures
        org < PERCENT_100 ==> attack_drain(org) == 65535,
        org >= PERCENT_100 ==> attack_drain(org) * (org / PERCENT_100) <= DRAIN_SPL
            < (attack_drain(org) + 1) * (org / PERCENT_100),
        attack_drain(more) <= attack_drain(org),
        org >= PERCENT_100 ==> attack_drain(org) <= DRAIN_SPL,
{
    if org >= PERCENT_100 {
        let k = (org / PERCENT_100) as int;
        let d = attack_drain(org) as int;
        assert(d == 50int / k);
        assert(d * k <= 50 < (d + 1) * k) by (nonlinear_arith)
            requires
                k >= 1,
                d == 50int / k,
        ;
        let k2 = (more / PERCENT_100) as int;
        assert(k <= k2) by (nonlinear_arith)
            requires
                org <= more,
                k == org / 1000,
                k2 == more / 1000,
        ;
        assert(50int / k2 <= 50int / k) by (nonlinear_arith)
            requires
                1 <= k <= k2,
        ;
    }
}

} // verus!
