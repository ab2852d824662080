use danubia::character::{Skill, SkillKind};
use danubia::common::{generate_scene, Scene, ShortList, Target, Timed, DURATION_PERMANENT};
use danubia::dynamic::{AppliableBox, AppliableKind, Attribute, Change, Dynamic, Modifier, Status, Trigger};
use danubia::map::Area;
use std::rc::Rc;

fn generate_attributes(scene: &Rc<Scene>) -> (Attribute, Attribute) {
    let attribute_6 = *scene.get_attribute(&6);
    let attribute_7 = *scene.get_attribute(&7);

    (attribute_6, attribute_7)
}

fn generate_skills() -> (Skill, Skill) {
    let scene = generate_scene();
    let skill_0 = *scene.get_skill(&0);
    let skill_1 = *scene.get_skill(&1);

    (skill_0, skill_1)
}

fn generate_modifiers() -> (Modifier, Modifier) {
    let scene = generate_scene();
    let modifier_0 = *scene.get_modifier(&0);
    let modifier_1 = *scene.get_modifier(&1);

    (modifier_0, modifier_1)
}

#[test]
fn weapon_add_appliable() {
    let scene = generate_scene();
    let mut weapon = *scene.get_weapon(&0);
    let (attribute_6, _) = generate_attributes(&scene);
    let attribute_6 = AppliableBox::Attribute(attribute_6);

    assert!(weapon.add_appliable(attribute_6));
    assert!(weapon.get_attribute_on_attack().is_some());
}

#[test]
fn weapon_remove_appliable() {
    let scene = generate_scene();
    let mut weapon = *scene.get_weapon(&0);
    let (attribute_6, _) = generate_attributes(&scene);
    let attribute_6 = AppliableBox::Attribute(attribute_6);

    // Test empty remove
    assert!(!weapon.remove_appliable(AppliableKind::Attribute(6)));
    assert!(weapon.get_attribute_on_attack().is_none());
    // Test non-empty remove
    weapon.add_appliable(attribute_6);
    assert!(weapon.remove_appliable(AppliableKind::Attribute(6)));
    assert!(weapon.get_attribute_on_attack().is_none());
}

#[test]
fn weapon_decrement_durations() {
    let scene = generate_scene();
    let mut weapon = *scene.get_weapon(&0);
    let (attribute_6, attribute_7) = generate_attributes(&scene);
    let attribute_6 = AppliableBox::Attribute(attribute_6);
    let attribute_7 = AppliableBox::Attribute(attribute_7);

    // Test empty attribute
    weapon.decrement_durations();
    assert!(weapon.get_attribute_on_attack().is_none());
    // Test timed attribute
    weapon.add_appliable(attribute_6);
    weapon.decrement_durations();
    assert!(weapon.get_attribute_on_attack().is_some());
    weapon.decrement_durations();
    assert!(weapon.get_attribute_on_attack().is_some());
    weapon.decrement_durations();
    assert!(weapon.get_attribute_on_attack().is_none());
    // Test permanent attribute
    weapon.add_appliable(attribute_7);
    weapon.decrement_durations();
    assert!(weapon.get_attribute_on_attack().is_some());
    weapon.decrement_durations();
    assert!(weapon.get_attribute_on_attack().is_some());
}

#[test]
fn skill_switch_attribute() {
    // The toggled skill 2 of the original debug lists, which toggles between modifiers 3 and 5
    let mut skill_2 = Skill::new(
        2,
        ShortList::two(AppliableKind::Modifier(3), AppliableKind::Modifier(5)),
        Target::This,
        Area::Radial(2),
        0,
        SkillKind::Toggled(0),
    );

    assert_eq!(skill_2.switch_attribute(), (AppliableKind::Modifier(3), AppliableKind::Modifier(5)));
    assert_eq!(skill_2.get_appliable(), AppliableKind::Modifier(5));
    assert_eq!(skill_2.switch_attribute(), (AppliableKind::Modifier(5), AppliableKind::Modifier(3)));
    assert_eq!(skill_2.get_appliable(), AppliableKind::Modifier(3));
}

#[test]
fn skill_start_cooldown() {
    let (mut skill_0, _) = generate_skills();

    // Test normal start
    skill_0.start_cooldown();
    assert_eq!(skill_0.get_duration(), 2);
    //  Test interrupted start
    let mut skill_0 = Skill::new(0, ShortList::one(AppliableKind::Attribute(5)), Target::This, Area::Single, 0, SkillKind::Timed(1, 2));
    skill_0.start_cooldown();
    assert_eq!(skill_0.get_duration(), 1);
}

#[test]
fn skill_decrement_duration() {
    let (mut skill_0, mut skill_1) = generate_skills();

    // Test timed skill
    skill_0.start_cooldown();
    assert!(skill_0.decrement_duration());
    assert_eq!(skill_0.get_duration(), 1);
    assert!(skill_0.decrement_duration());
    assert_eq!(skill_0.get_duration(), 0);
    assert!(!skill_0.decrement_duration());
    assert_eq!(skill_0.get_duration(), 0);
    // Test passive skill
    assert!(skill_1.decrement_duration());
    assert_eq!(skill_1.get_duration(), DURATION_PERMANENT);
    assert!(skill_1.decrement_duration());
    assert_eq!(skill_1.get_duration(), DURATION_PERMANENT);
}

#[test]
fn attribute_decrement_duration() {
    let mut attribute_0 = Attribute::new(0, AppliableKind::Modifier(0), Trigger::Always, 2);
    let mut attribute_1 = Attribute::new(1, AppliableKind::Modifier(0), Trigger::Always, DURATION_PERMANENT);

    // Test timed attribute
    assert!(attribute_0.decrement_duration());
    assert_eq!(attribute_0.get_duration(), 1);
    assert!(attribute_0.decrement_duration());
    assert_eq!(attribute_0.get_duration(), 0);
    assert!(!attribute_0.decrement_duration());
    assert_eq!(attribute_0.get_duration(), 0);
    // Test permanent attribute
    assert!(attribute_1.decrement_duration());
    assert_eq!(attribute_1.get_duration(), DURATION_PERMANENT);
    assert!(attribute_1.decrement_duration());
    assert_eq!(attribute_1.get_duration(), DURATION_PERMANENT);
}

#[test]
fn modifier_decrement_duration() {
    let (mut modifier_0, mut modifier_1) = generate_modifiers();

    // Test timed modifier
    assert!(modifier_0.decrement_duration());
    assert_eq!(modifier_0.get_duration(), 1);
    assert!(modifier_0.decrement_duration());
    assert_eq!(modifier_0.get_duration(), 0);
    assert!(!modifier_0.decrement_duration());
    assert_eq!(modifier_0.get_duration(), 0);
    // Test permanent modifier
    assert!(modifier_1.decrement_duration());
    assert_eq!(modifier_1.get_duration(), DURATION_PERMANENT);
    assert!(modifier_1.decrement_duration());
    assert_eq!(modifier_1.get_duration(), DURATION_PERMANENT);
}

#[test]
fn status_decrement_duration() {
    let mut status_0 = Status::new(0, Change::Modifier(0, false), Trigger::Always, 2, Target::This, false, None);
    let mut status_1 = Status::new(1, Change::Modifier(0, false), Trigger::Always, DURATION_PERMANENT, Target::This, false, None);

    // Test timed status
    assert!(!status_0.decrement_duration());
    assert_eq!(status_0.get_duration(), 1);
    assert!(!status_0.decrement_duration());
    assert_eq!(status_0.get_duration(), 0);
    assert!(status_0.decrement_duration());
    assert_eq!(status_0.get_duration(), 0);
    // Test permanent status
    assert!(!status_1.decrement_duration());
    assert_eq!(status_1.get_duration(), DURATION_PERMANENT);
    assert!(!status_1.decrement_duration());
    assert_eq!(status_1.get_duration(), DURATION_PERMANENT);
}
