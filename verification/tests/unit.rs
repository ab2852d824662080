use danubia::character::{Unit, UnitStatistic, UnitStatistics, ATK_MAX, HLT_MAX, RECOVER_MRL};
use danubia::common::{generate_scene, Scene, Timed};
use danubia::dynamic::{AppliableBox, Applier, Attribute, Dynamic};
use std::rc::Rc;

fn generate_units(scene: &Rc<Scene>) -> (Unit, Unit, Unit) {
    let unit_builder_0 = scene.get_unit_builder(&0);
    let unit_0 = unit_builder_0.build(Rc::clone(scene));
    let unit_builder_1 = scene.get_unit_builder(&1);
    let unit_1 = unit_builder_1.build(Rc::clone(scene));
    let unit_builder_2 = scene.get_unit_builder(&2);
    let unit_2 = unit_builder_2.build(Rc::clone(scene));

    (unit_0, unit_1, unit_2)
}

fn generate_modifiers(scene: &Rc<Scene>) -> (AppliableBox, AppliableBox) {
    let modifier_3 = *scene.get_modifier(&3);
    let modifier_3 = AppliableBox::Modifier(modifier_3);
    let modifier_4 = *scene.get_modifier(&4);
    let modifier_4 = AppliableBox::Modifier(modifier_4);

    (modifier_3, modifier_4)
}

fn generate_effects(scene: &Rc<Scene>) -> (AppliableBox, AppliableBox) {
    let effect_0 = *scene.get_effect(&0);
    let effect_0 = AppliableBox::Effect(effect_0);
    let effect_1 = *scene.get_effect(&1);
    let effect_1 = AppliableBox::Effect(effect_1);

    (effect_0, effect_1)
}

fn generate_attributes(scene: &Rc<Scene>) -> (Attribute, Attribute, Attribute) {
    let attribute_0 = *scene.get_attribute(&0);
    let attribute_1 = *scene.get_attribute(&1);
    let attribute_5 = *scene.get_attribute(&5);

    (attribute_0, attribute_1, attribute_5)
}

#[test]
fn unit_change_statistic_flat() {
    let scene = generate_scene();
    let (mut unit_0, _, _) = generate_units(&scene);

    // Test constant
    unit_0.change_statistic_flat(UnitStatistic::ATK, 5, true); // Test additive change
    assert_eq!(unit_0.get_statistic(UnitStatistic::ATK).0, 25);
    unit_0.change_statistic_flat(UnitStatistic::ATK, 5, false); // Test subtractive change
    assert_eq!(unit_0.get_statistic(UnitStatistic::ATK).0, 20);
    unit_0.change_statistic_flat(UnitStatistic::ATK, ATK_MAX, true); // Test maximum change
    assert_eq!(unit_0.get_statistic(UnitStatistic::ATK).0, ATK_MAX);
    unit_0.change_statistic_flat(UnitStatistic::ATK, ATK_MAX, false); // Test minimum change
    assert_eq!(unit_0.get_statistic(UnitStatistic::ATK).0, 0);
    // Test quantity
    unit_0.change_statistic_flat(UnitStatistic::HLT, 10, false); // Test subtractive change
    assert_eq!(unit_0.get_statistic(UnitStatistic::HLT).0, 990);
    unit_0.change_statistic_flat(UnitStatistic::HLT, 5, true); // Test additive change
    assert_eq!(unit_0.get_statistic(UnitStatistic::HLT).0, 995);
    unit_0.change_statistic_flat(UnitStatistic::HLT, HLT_MAX, true); // Test maximum change
    assert_eq!(unit_0.get_statistic(UnitStatistic::HLT).0, HLT_MAX);
    unit_0.change_statistic_flat(UnitStatistic::HLT, HLT_MAX, false); // Test minimum change
    assert_eq!(unit_0.get_statistic(UnitStatistic::HLT).0, 0);
}

#[test]
fn unit_change_statistic_percentage() {
    let scene = generate_scene();
    let (mut unit_0, _, _) = generate_units(&scene);

    // Test constant
    unit_0.change_statistic_percentage(UnitStatistic::ATK, 10, true); // Test additive change
    assert_eq!(unit_0.get_statistic(UnitStatistic::ATK).0, 22);
    unit_0.change_statistic_percentage(UnitStatistic::ATK, 10, false); // Test subtractive change
    assert_eq!(unit_0.get_statistic(UnitStatistic::ATK).0, 20);
    unit_0.change_statistic_percentage(UnitStatistic::ATK, 1000, true); // Test maximum change
    assert_eq!(unit_0.get_statistic(UnitStatistic::ATK).0, ATK_MAX);
    unit_0.change_statistic_percentage(UnitStatistic::ATK, 1000, false); // Test minimum change
    assert_eq!(unit_0.get_statistic(UnitStatistic::ATK).0, 0);
    // Test quantity
    unit_0.change_statistic_percentage(UnitStatistic::HLT, 10, false); // Test subtractive change
    assert_eq!(unit_0.get_statistic(UnitStatistic::HLT).0, 900);
    unit_0.change_statistic_percentage(UnitStatistic::HLT, 5, true); // Test additive change
    assert_eq!(unit_0.get_statistic(UnitStatistic::HLT).0, 950);
    unit_0.change_statistic_percentage(UnitStatistic::HLT, 1000, true); // Test maximum change
    assert_eq!(unit_0.get_statistic(UnitStatistic::HLT).0, HLT_MAX);
    unit_0.change_statistic_percentage(UnitStatistic::HLT, 1000, false); // Test minimum change
    assert_eq!(unit_0.get_statistic(UnitStatistic::HLT).0, 0);
}

#[test]
fn unit_apply_inactive_skills() {
    let scene = generate_scene();
    let (mut unit_0, _, _) = generate_units(&scene);

    unit_0.apply_inactive_skills();
    assert_eq!(unit_0.get_attributes().len(), 2);
    assert_eq!(unit_0.get_modifiers().len(), 2);
}

#[test]
fn unit_change_modifier_terrain() {
    let scene = generate_scene();
    let (mut unit_0, _, _) = generate_units(&scene);

    // Test empty modifier
    unit_0.change_modifier_terrain(None);
    assert!(unit_0.get_modifier_terrain_id().is_none());
    assert!(unit_0.get_modifiers().is_empty());
    // Test non-empty modifier
    unit_0.change_modifier_terrain(Some(3));
    assert_eq!(unit_0.get_modifier_terrain_id().unwrap(), 3);
    assert_eq!(unit_0.get_modifiers().len(), 1);
}

#[test]
fn unit_set_leader_id() {
    let scene = generate_scene();
    let (mut unit_0, mut unit_1, _) = generate_units(&scene);

    // Test leader set
    unit_0.set_leader_id(1);
    assert_eq!(unit_0.get_leader(), None);
    assert_eq!(unit_0.get_leader_id(), 0);
    // Test follower set
    unit_1.set_leader_id(0);
    assert_eq!(unit_1.get_leader(), Some(0));
    assert_eq!(unit_1.get_leader_id(), 0);
}

#[test]
fn unit_try_add_passive() {
    let scene = generate_scene();
    let (mut unit_0, mut unit_1, _) = generate_units(&scene);
    let skill_passive_id = unit_0.get_skill_passive_id().unwrap();
    let skill_passive = scene.get_skill(&skill_passive_id);
    let attribute_passive_id = skill_passive.get_attribute_id();

    // Test leader add
    assert!(!unit_0.try_add_passive(&attribute_passive_id, 0));
    // Test near add
    assert!(unit_1.try_add_passive(&attribute_passive_id, 1));
    assert_eq!(unit_1.get_skill_passive_id().unwrap(), attribute_passive_id);
    assert_eq!(unit_1.get_attributes().len(), 1);
    assert_eq!(unit_1.get_modifiers().len(), 1);
    // Test far add
    assert!(!unit_1.try_add_passive(&attribute_passive_id, 2));
    assert!(unit_1.get_skill_passive_id().is_none());
    assert!(unit_1.get_attributes().is_empty());
    assert!(unit_1.get_modifiers().is_empty());
}

#[test]
fn unit_start_turn() {
    let scene = generate_scene();
    let (mut unit_0, _, _) = generate_units(&scene);
    let modifier_7 = *scene.get_modifier(&7);
    let modifier_7 = AppliableBox::Modifier(modifier_7);
    let modifier_8 = *scene.get_modifier(&8);
    let modifier_8 = AppliableBox::Modifier(modifier_8);

    // Test normal modifier
    unit_0.add_appliable(modifier_7);
    assert_eq!(unit_0.get_statistic(UnitStatistic::DEF).0, 18);
    unit_0.start_turn();
    assert_eq!(unit_0.get_statistic(UnitStatistic::DEF).0, 18);
    // Test repeatable modifier
    unit_0.add_appliable(modifier_8);
    assert_eq!(unit_0.get_statistic(UnitStatistic::MAG).0, 18);
    unit_0.start_turn();
    assert_eq!(unit_0.get_statistic(UnitStatistic::MAG).0, 16);
}

#[test]
fn unit_act_attack() {
    let scene = generate_scene();
    let (mut unit_0, _, _) = generate_units(&scene);
    let attribute = *scene.get_attribute(&6);

    // Test normal attack
    let spl_0_0 = unit_0.get_statistic(UnitStatistic::SPL).0;
    let response = unit_0.act_attack();
    assert_eq!(response.0, 10);
    assert_eq!(response.1.get_id(), 0);
    let spl_0_1 = unit_0.get_statistic(UnitStatistic::SPL).0;
    assert!(spl_0_0 > spl_0_1);
    // Test OnAttack attack
    unit_0.add_attribute(attribute);
    let response = unit_0.act_attack();
    assert_eq!(response.0, 10);
    assert_eq!(response.1.get_id(), 0);
    let spl_0_2 = unit_0.get_statistic(UnitStatistic::SPL).0;
    assert!(spl_0_1 > spl_0_2);
}

#[test]
fn unit_take_damage() {
    let scene = generate_scene();
    let (mut unit_0, _, mut unit_2) = generate_units(&scene);
    let statistics_0 = unit_0.get_statistics();
    let statistics_2 = unit_2.get_statistics();
    let weapon = *unit_0.get_weapon();
    let attribute = *scene.get_attribute(&5);

    // Test normal attack
    let (damage_mrl, damage_hlt, damage_spl) = UnitStatistics::calculate_damage(&statistics_0, &statistics_2, &weapon);
    let mrl_2_0 = unit_2.get_statistic(UnitStatistic::MRL).0;
    let hlt_2_0 = unit_2.get_statistic(UnitStatistic::HLT).0;
    let spl_2_0 = unit_2.get_statistic(UnitStatistic::SPL).0;
    assert!(unit_2.take_damage(damage_mrl, damage_hlt, damage_spl).is_none());
    let mrl_2_1 = unit_2.get_statistic(UnitStatistic::MRL).0;
    let hlt_2_1 = unit_2.get_statistic(UnitStatistic::HLT).0;
    let spl_2_1 = unit_2.get_statistic(UnitStatistic::SPL).0;
    assert_eq!(mrl_2_0 - damage_mrl, mrl_2_1);
    assert_eq!(hlt_2_0 - damage_hlt, hlt_2_1);
    assert_eq!(spl_2_0 - damage_spl, spl_2_1);
    // Test OnHit attack
    unit_0.add_attribute(attribute);
    let weapon = *unit_2.get_weapon();
    let (damage_mrl, damage_hlt, damage_spl) =
        UnitStatistics::calculate_damage(&statistics_2, &statistics_0, &weapon);
    let mrl_0_0 = unit_0.get_statistic(UnitStatistic::MRL).0;
    let hlt_0_0 = unit_0.get_statistic(UnitStatistic::HLT).0;
    let spl_0_0 = unit_0.get_statistic(UnitStatistic::SPL).0;
    assert!(unit_0
        .take_damage(damage_mrl, damage_hlt, damage_spl)
        .is_some());
    let mrl_0_1 = unit_0.get_statistic(UnitStatistic::MRL).0;
    let hlt_0_1 = unit_0.get_statistic(UnitStatistic::HLT).0;
    let spl_0_1 = unit_0.get_statistic(UnitStatistic::SPL).0;
    assert_eq!(mrl_0_0 - damage_mrl, mrl_0_1);
    assert_eq!(hlt_0_0 - damage_hlt, hlt_0_1);
    assert_eq!(spl_0_0 - damage_spl, spl_0_1);
    // Test switch attack
    assert_eq!(unit_2.switch_weapon(), 1);
    let weapon = *unit_2.get_weapon();
    let (damage_mrl, damage_hlt, damage_spl) =
        UnitStatistics::calculate_damage(&statistics_2, &statistics_0, &weapon);
    assert!(unit_0
        .take_damage(damage_mrl, damage_hlt, damage_spl)
        .is_some());
    let mrl_0_2 = unit_0.get_statistic(UnitStatistic::MRL).0;
    let hlt_0_2 = unit_0.get_statistic(UnitStatistic::HLT).0;
    let spl_0_2 = unit_0.get_statistic(UnitStatistic::SPL).0;
    assert_eq!(mrl_0_1 - damage_mrl, mrl_0_2);
    assert_eq!(hlt_0_1 - damage_hlt, hlt_0_2);
    assert_eq!(spl_0_1 - damage_spl, spl_0_2);
}

#[test]
fn unit_act_skill() {
    let scene = generate_scene();
    let (mut unit_0, _, _) = generate_units(&scene);

    // Test timed skill
    let spl_0_0 = unit_0.get_statistic(UnitStatistic::SPL).0;
    let response = unit_0.act_skill(&0);
    assert_eq!(response.0, 10);
    assert_eq!(response.1.get_id(), 0);
    assert_eq!(unit_0.get_skills()[0].get_duration(), 2);
    let spl_0_1 = unit_0.get_statistic(UnitStatistic::SPL).0;
    assert!(spl_0_0 > spl_0_1);
    // Test toggled skill
    let response = unit_0.act_skill(&2);
    assert_eq!(response.0, 10);
    assert_eq!(response.1.get_id(), 2);
    assert_eq!(unit_0.get_skills()[0].get_attribute_id(), 5);
    let spl_0_2 = unit_0.get_statistic(UnitStatistic::SPL).0;
    assert!(spl_0_1 > spl_0_2);
}

#[test]
fn unit_act_magic() {
    let scene = generate_scene();
    let (mut unit_0, _, _) = generate_units(&scene);

    let hlt_0_0 = unit_0.get_statistic(UnitStatistic::HLT).0;
    let org_0_0 = unit_0.get_statistic(UnitStatistic::ORG).0;
    let spl_0_0 = unit_0.get_statistic(UnitStatistic::SPL).0;
    let response = unit_0.act_magic(&0);
    assert_eq!(response.0, 10);
    assert_eq!(response.1.get_attribute_id(), 8);
    let hlt_0_1 = unit_0.get_statistic(UnitStatistic::HLT).0;
    let org_0_1 = unit_0.get_statistic(UnitStatistic::ORG).0;
    let spl_0_1 = unit_0.get_statistic(UnitStatistic::SPL).0;
    assert!(hlt_0_0 > hlt_0_1);
    assert!(org_0_0 > org_0_1);
    assert!(spl_0_0 > spl_0_1);
}

#[test]
fn unit_recover_supplies() {
    let scene = generate_scene();
    let (mut unit_0, _, _) = generate_units(&scene);

    unit_0.change_statistic_flat(UnitStatistic::HLT, 500, false);
    unit_0.change_statistic_flat(UnitStatistic::SPL, 500, false);

    // Test encircled recover
    let hlt_0_0 = unit_0.get_statistic(UnitStatistic::HLT).0;
    let spl_0_0 = unit_0.get_statistic(UnitStatistic::SPL).0;
    unit_0.recover_supplies(&[]);
    let hlt_0_1 = unit_0.get_statistic(UnitStatistic::HLT).0;
    let spl_0_1 = unit_0.get_statistic(UnitStatistic::SPL).0;
    assert_eq!(hlt_0_0, hlt_0_1);
    assert_eq!(spl_0_0, spl_0_1);
    // Test normal recover
    unit_0.recover_supplies(&[0]);
    let hlt_0_2 = unit_0.get_statistic(UnitStatistic::HLT).0;
    let spl_0_2 = unit_0.get_statistic(UnitStatistic::SPL).0;
    assert!(hlt_0_1 < hlt_0_2);
    assert!(spl_0_1 < spl_0_2);
}

#[test]
fn unit_end_turn() {
    let scene = generate_scene();
    let (mut unit_0, _, _) = generate_units(&scene);
    let effect_0 = *scene.get_effect(&0);
    let effect_0 = AppliableBox::Effect(effect_0);
    let effect_0 = Some(effect_0);

    unit_0.change_statistic_flat(UnitStatistic::MRL, 500, false);
    unit_0.change_statistic_flat(UnitStatistic::HLT, 500, false);
    unit_0.change_statistic_flat(UnitStatistic::SPL, 500, false);
    unit_0.start_skill_cooldown(0);

    // Test encircled recover
    let mrl_0_0 = unit_0.get_statistic(UnitStatistic::MRL).0;
    let hlt_0_0 = unit_0.get_statistic(UnitStatistic::HLT).0;
    let spl_0_0 = unit_0.get_statistic(UnitStatistic::SPL).0;
    unit_0.end_turn(&[], effect_0);
    let mrl_0_1 = unit_0.get_statistic(UnitStatistic::MRL).0;
    let hlt_0_1 = unit_0.get_statistic(UnitStatistic::HLT).0;
    let spl_0_1 = unit_0.get_statistic(UnitStatistic::SPL).0;
    assert_eq!(mrl_0_0 + RECOVER_MRL, mrl_0_1);
    assert!(hlt_0_0 > hlt_0_1);
    assert_eq!(spl_0_0, spl_0_1);
    assert_eq!(unit_0.get_skills()[0].get_duration(), 1);
    // Test normal recover
    unit_0.end_turn(&[1], None);
    let mrl_0_2 = unit_0.get_statistic(UnitStatistic::MRL).0;
    let hlt_0_2 = unit_0.get_statistic(UnitStatistic::HLT).0;
    let spl_0_2 = unit_0.get_statistic(UnitStatistic::SPL).0;
    assert_eq!(mrl_0_1 + RECOVER_MRL, mrl_0_2);
    assert!(hlt_0_1 < hlt_0_2);
    assert!(spl_0_1 < spl_0_2);
    assert_eq!(unit_0.get_skills()[0].get_duration(), 0);
}

#[test]
fn unit_get_skill_ids_actionable() {
    let scene = generate_scene();
    let (unit_0, unit_1, _) = generate_units(&scene);
    let unit_3 = scene.get_unit_builder(&3).build(Rc::clone(&scene));

    // Test empty skills
    assert!(unit_1.get_skill_ids_actionable().is_empty());
    // Test timed skills
    assert_eq!(unit_0.get_skill_ids_actionable().len(), 2);
    assert_eq!(unit_3.get_skill_ids_actionable().len(), 3);
}

#[test]
fn unit_add_appliable() {
    let scene = generate_scene();
    let (mut unit_0, mut unit_1, _) = generate_units(&scene);
    let (modifier_3, modifier_4) = generate_modifiers(&scene);
    let modifier_5 = *scene.get_modifier(&5);
    let modifier_5 = AppliableBox::Modifier(modifier_5);
    let (effect_0, effect_1) = generate_effects(&scene);

    // Test additive modifier
    assert!(unit_0.add_appliable(modifier_3));
    assert_eq!(unit_0.get_modifiers().len(), 1);
    assert_eq!(unit_0.get_statistic(UnitStatistic::ATK).0, 24);
    // Test subtractive modifier
    assert!(unit_0.add_appliable(modifier_4)); // Test multiple adjustments
    assert_eq!(unit_0.get_modifiers().len(), 2);
    assert_eq!(unit_0.get_statistic(UnitStatistic::ATK).0, 26);
    assert_eq!(unit_0.get_statistic(UnitStatistic::DEF).0, 18);
    // Test stacking modifier
    assert!(unit_0.add_appliable(modifier_3));
    assert_eq!(unit_0.get_modifiers().len(), 3);
    assert_eq!(unit_0.get_statistic(UnitStatistic::ATK).0, 30);
    assert!(unit_0.add_appliable(modifier_3));
    assert_eq!(unit_0.get_modifiers().len(), 4);
    assert_eq!(unit_0.get_statistic(UnitStatistic::ATK).0, 34);
    // Test non-stacking modifier
    assert!(unit_0.add_appliable(modifier_5));
    assert!(!unit_0.add_appliable(modifier_5));
    assert_eq!(unit_0.get_modifiers().len(), 5);
    assert_eq!(unit_0.get_statistic(UnitStatistic::ATK).0, 32);
    assert_eq!(unit_0.get_statistic(UnitStatistic::DEF).0, 18);

    // Test flat effect
    assert!(unit_1.add_appliable(effect_0));
    assert_eq!(unit_1.get_statistic(UnitStatistic::HLT).0, 998);
    // Test percentage effect
    assert!(unit_1.add_appliable(effect_1)); // Test multiple adjustments
    assert_eq!(unit_1.get_statistic(UnitStatistic::ATK).0, 21);
    assert_eq!(unit_1.get_statistic(UnitStatistic::DEF).0, 19);
}

#[test]
fn unit_add_attribute() {
    let scene = generate_scene();
    let (mut unit_0, _, _) = generate_units(&scene);
    let (attribute_0, _, attribute_5) = generate_attributes(&scene);
    let attribute_6 = *scene.get_attribute(&6);

    // Test unit attribute
    assert!(unit_0.add_attribute(attribute_0));
    assert_eq!(unit_0.get_statistic(UnitStatistic::ATK).0, 24);
    // Test applier attribute
    assert!(unit_0.add_attribute(attribute_5));
    assert!(unit_0.get_attribute_on_hit().is_some());
    assert!(unit_0.try_yield_appliable(Rc::clone(&scene)).is_some());
    // Test weapon attribute
    assert!(unit_0.add_attribute(attribute_6));
    assert!(unit_0.get_weapon().try_yield_appliable(Rc::clone(&scene)).is_some());
}

#[test]
fn unit_remove_modifier() {
    let scene = generate_scene();
    let (mut unit_0, _, _) = generate_units(&scene);
    let (modifier_3, _) = generate_modifiers(&scene);

    // Test empty remove
    assert!(!unit_0.remove_modifier(&3));
    assert!(unit_0.get_modifiers().is_empty());
    // Test non-empty remove
    unit_0.add_appliable(modifier_3);
    assert!(unit_0.remove_modifier(&3));
    assert!(unit_0.get_modifiers().is_empty());
}

#[test]
fn unit_remove_attribute() {
    let scene = generate_scene();
    let (mut unit_0, _, _) = generate_units(&scene);
    let (attribute_0, _, attribute_5) = generate_attributes(&scene);

    // Test empty remove
    assert!(!unit_0.remove_attribute(&0));
    assert!(unit_0.get_attributes().is_empty());
    assert!(unit_0.get_modifiers().is_empty());
    // Test non-empty remove
    unit_0.add_attribute(attribute_0);
    assert_eq!(unit_0.get_statistic(UnitStatistic::ATK).0, 24);
    assert!(unit_0.remove_attribute(&0));
    assert_eq!(unit_0.get_statistic(UnitStatistic::ATK).0, 20);
    assert!(unit_0.get_attributes().is_empty());
    assert!(unit_0.get_modifiers().is_empty());
    // Test applier remove
    unit_0.add_attribute(attribute_5);
    assert!(unit_0.remove_attribute(&5));
    assert!(unit_0.get_attribute_on_hit().is_none());
    assert!(unit_0.get_modifiers().is_empty());
}

#[test]
fn unit_decrement_durations() {
    let scene = generate_scene();
    let (mut unit_0, mut unit_1, _) = generate_units(&scene);
    let (modifier_3, modifier_4) = generate_modifiers(&scene);
    let modifier_6 = *scene.get_modifier(&6);
    let modifier_6 = AppliableBox::Modifier(modifier_6);
    let (attribute_0, attribute_1, _) = generate_attributes(&scene);

    // Test empty modifier
    unit_0.decrement_durations();
    assert!(unit_0.get_modifiers().is_empty());
    // Test timed modifier
    unit_0.add_appliable(modifier_3);
    unit_0.decrement_durations();
    assert_eq!(unit_0.get_modifiers().len(), 1);
    unit_0.decrement_durations();
    assert_eq!(unit_0.get_modifiers().len(), 1);
    unit_0.decrement_durations();
    assert!(unit_0.get_modifiers().is_empty());
    // Test permanent modifier
    unit_0.add_appliable(modifier_4);
    unit_0.decrement_durations();
    assert_eq!(unit_0.get_modifiers().len(), 1);
    unit_0.decrement_durations();
    assert_eq!(unit_0.get_modifiers().len(), 1);
    // Test linked modifier
    unit_1.add_appliable(modifier_6);
    unit_1.decrement_durations();
    assert_eq!(unit_1.get_modifiers().len(), 1);
    assert_eq!(unit_1.get_modifiers()[0].get_next_id().unwrap(), 5);
    unit_1.decrement_durations();
    assert_eq!(unit_1.get_modifiers().len(), 1);
    assert!(unit_1.get_modifiers()[0].get_next_id().is_none());

    // Test empty attribute
    unit_1.decrement_durations();
    assert!(unit_1.get_attributes().is_empty());
    // Test timed attribute
    unit_1.add_attribute(attribute_1);
    unit_1.decrement_durations();
    assert_eq!(unit_1.get_attributes().len(), 1);
    unit_1.decrement_durations();
    assert_eq!(unit_1.get_attributes().len(), 1);
    unit_1.decrement_durations();
    assert!(unit_1.get_attributes().is_empty());
    // Test permanent attribute
    unit_1.add_attribute(attribute_0);
    unit_1.decrement_durations();
    assert_eq!(unit_1.get_attributes().len(), 1);
    unit_1.decrement_durations();
    assert_eq!(unit_1.get_attributes().len(), 1);
    unit_1.decrement_durations();
    assert_eq!(unit_1.get_attributes().len(), 1);
}
