use danubia::common::{generate_scene, Scene};
use danubia::dynamic::{AppliableBox, AppliableKind, Applier, Dynamic};
use danubia::map::Tile;
use std::rc::Rc;

fn generate_modifiers(scene: &Rc<Scene>) -> (AppliableBox, AppliableBox, AppliableBox) {
    let modifier_0 = *scene.get_modifier(&0);
    let modifier_0 = AppliableBox::Modifier(modifier_0);
    let modifier_1 = *scene.get_modifier(&1);
    let modifier_1 = AppliableBox::Modifier(modifier_1);
    let modifier_2 = *scene.get_modifier(&2);
    let modifier_2 = AppliableBox::Modifier(modifier_2);

    (modifier_0, modifier_1, modifier_2)
}

fn generate_attributes(scene: &Rc<Scene>) -> (AppliableBox, AppliableBox, AppliableBox) {
    let attribute_2 = *scene.get_attribute(&2);
    let attribute_2 = AppliableBox::Attribute(attribute_2);
    let attribute_3 = *scene.get_attribute(&3);
    let attribute_3 = AppliableBox::Attribute(attribute_3);
    let attribute_4 = *scene.get_attribute(&4);
    let attribute_4 = AppliableBox::Attribute(attribute_4);

    (attribute_2, attribute_3, attribute_4)
}

#[test]
fn tile_get_cost() {
    let scene = generate_scene();
    let tile_0 = Tile::new(Rc::clone(&scene), 0, 0, None);
    let tile_1 = Tile::new(Rc::clone(&scene), 1, 0, None);
    let tile_2 = Tile::new(Rc::clone(&scene), 2, 0, None);

    assert_eq!(tile_0.get_cost(), 1);
    assert_eq!(tile_1.get_cost(), 2);
    assert_eq!(tile_2.get_cost(), 0);
}

#[test]
fn tile_is_impassable() {
    let scene = generate_scene();
    let tile_0 = Tile::new(Rc::clone(&scene), 0, 0, None);
    let tile_2 = Tile::new(Rc::clone(&scene), 2, 0, None);

    // Test passable tile
    assert!(!tile_0.is_impassable());
    // Test impassable tile
    assert!(tile_2.is_impassable());
}

#[test]
fn tile_try_climb() {
    let scene = generate_scene();
    let tile_0 = Tile::new(Rc::clone(&scene), 0, 0, None);
    let tile_1_0 = Tile::new(Rc::clone(&scene), 1, 0, None);
    let tile_1_1 = Tile::new(Rc::clone(&scene), 1, 1, None);
    let tile_1_2 = Tile::new(Rc::clone(&scene), 1, 2, None);

    // Test impassable climb
    assert!(tile_0.try_climb(&tile_1_2).is_none());
    assert!(tile_1_2.try_climb(&tile_0).is_none());
    // Test passable climb
    assert_eq!(tile_0.try_climb(&tile_1_0).unwrap(), 0);
    assert_eq!(tile_1_0.try_climb(&tile_0).unwrap(), 0);
    assert_eq!(tile_1_0.try_climb(&tile_1_1).unwrap(), 1);
    assert_eq!(tile_1_1.try_climb(&tile_1_0).unwrap(), 1);
}

#[test]
fn tile_find_cost() {
    let scene = generate_scene();
    let tile_0 = Tile::new(Rc::clone(&scene), 0, 0, None);
    let tile_1_0 = Tile::new(Rc::clone(&scene), 1, 0, None);
    let tile_1_1 = Tile::new(Rc::clone(&scene), 1, 1, None);
    let tile_2 = Tile::new(Rc::clone(&scene), 2, 0, None);

    // Test impassable cost
    assert_eq!(tile_0.find_cost(&tile_2), 0);
    assert_eq!(tile_2.find_cost(&tile_0), 0);
    // Test passable cost
    assert_eq!(tile_0.find_cost(&tile_1_0), 2);
    assert_eq!(tile_1_0.find_cost(&tile_0), 1);
    assert_eq!(tile_0.find_cost(&tile_1_1), 3);
    assert_eq!(tile_1_1.find_cost(&tile_0), 2);
}

#[test]
fn tile_add_appliable() {
    let scene = generate_scene();
    let mut tile = Tile::new(Rc::clone(&scene), 1, 0, None);
    let (modifier_0, modifier_1, modifier_2) = generate_modifiers(&scene);
    let (attribute_2, _, _) = generate_attributes(&scene);

    // Test additive modifier
    assert_eq!(tile.get_cost(), 2);
    assert!(tile.add_appliable(modifier_0));
    assert!(tile.get_modifier().is_some());
    assert_eq!(tile.get_cost(), 3);
    // Test subtractive modifier
    assert!(tile.add_appliable(modifier_1));
    assert!(tile.get_modifier().is_some());
    assert_eq!(tile.get_cost(), 1);
    // Test constant modifier
    assert!(tile.add_appliable(modifier_2));
    assert!(tile.get_modifier().is_some());
    assert_eq!(tile.get_cost(), 1);

    // Test attribute
    assert!(tile.add_appliable(attribute_2));
    assert!(tile.get_attribute().is_some());
    assert!(tile.try_yield_appliable(Rc::clone(&scene)).is_some());
}

#[test]
fn tile_remove_appliable() {
    let scene = generate_scene();
    let mut tile = Tile::new(Rc::clone(&scene), 1, 0, None);
    let (modifier_0, _, _) = generate_modifiers(&scene);
    let (_, attribute_3, _) = generate_attributes(&scene);

    // Test empty remove
    assert!(!tile.remove_appliable(AppliableKind::Modifier(0)));
    assert!(tile.get_modifier().is_none());
    // Test non-empty remove
    tile.add_appliable(modifier_0);
    assert_eq!(tile.get_cost(), 3);
    assert!(tile.remove_appliable(AppliableKind::Modifier(0)));
    assert_eq!(tile.get_cost(), 2);
    assert!(tile.get_modifier().is_none());

    // Test empty remove
    assert!(!tile.remove_appliable(AppliableKind::Attribute(0)));
    assert!(tile.get_attribute().is_none());
    assert!(tile.get_modifier().is_none());
    // Test non-empty remove
    tile.add_appliable(attribute_3);
    assert!(tile.remove_appliable(AppliableKind::Attribute(3)));
    assert!(tile.get_attribute().is_none());
}

#[test]
fn tile_decrement_durations() {
    let scene = generate_scene();
    let mut tile = Tile::new(Rc::clone(&scene), 0, 0, None);
    let (modifier_0, modifier_1, modifier_2) = generate_modifiers(&scene);
    let (attribute_2, attribute_3, _) = generate_attributes(&scene);

    // Test empty modifier
    tile.decrement_durations();
    assert!(tile.get_modifier().is_none());
    // Test timed modifier
    tile.add_appliable(modifier_0);
    tile.decrement_durations();
    assert!(tile.get_modifier().is_some());
    tile.decrement_durations();
    assert!(tile.get_modifier().is_some());
    tile.decrement_durations();
    assert!(tile.get_modifier().is_none());
    // Test permanent modifier
    tile.add_appliable(modifier_1);
    tile.decrement_durations();
    assert!(tile.get_modifier().is_some());
    tile.decrement_durations();
    assert!(tile.get_modifier().is_some());
    // Test linked modifier
    tile.add_appliable(modifier_2);
    tile.decrement_durations();
    assert!(tile.get_modifier().is_some());
    assert_eq!(tile.get_modifier().unwrap().get_next_id().unwrap(), 0);
    tile.decrement_durations();
    assert!(tile.get_modifier().is_some());
    assert!(tile.get_modifier().unwrap().get_next_id().is_none());

    // Test empty attribute
    tile.decrement_durations();
    assert!(tile.get_attribute().is_none());
    // Test timed attribute
    tile.add_appliable(attribute_2);
    tile.decrement_durations();
    assert!(tile.get_attribute().is_some());
    tile.decrement_durations();
    assert!(tile.get_attribute().is_some());
    tile.decrement_durations();
    assert!(tile.get_attribute().is_none());
    // Test permanent attribute
    tile.add_appliable(attribute_3);
    tile.decrement_durations();
    assert!(tile.get_attribute().is_some());
    tile.decrement_durations();
    assert!(tile.get_attribute().is_some());
}

#[test]
fn city_get_manpower() {
    let scene = generate_scene();

    for i in 0..=3 {
        assert!(scene.get_city(&i).get_manpower() > 0);
    }

    let manpower_0: u16 = scene.get_city(&0).get_manpower();
    let manpower_1: u16 = scene.get_city(&1).get_manpower();
    let manpower_2: u16 = scene.get_city(&2).get_manpower();
    let manpower_3: u16 = scene.get_city(&3).get_manpower();

    println!("{}", manpower_0);
    println!("{}", manpower_1);
    println!("{}", manpower_2);
    println!("{}", manpower_3);
}

#[test]
fn city_get_equipment() {
    let scene = generate_scene();
    let equipment_0: u16 = scene.get_city(&0).get_equipment();
    let equipment_1: u16 = scene.get_city(&1).get_equipment();
    let equipment_2: u16 = scene.get_city(&2).get_equipment();
    let equipment_3: u16 = scene.get_city(&3).get_equipment();

    for i in 0..=3 {
        assert!(scene.get_city(&i).get_manpower() > 0);
    }

    println!("{}", equipment_0);
    println!("{}", equipment_1);
    println!("{}", equipment_2);
    println!("{}", equipment_3);
}
