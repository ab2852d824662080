use danubia::common::generate_scene;
use danubia::dynamic::{Appliable, AppliableBox, Applier};
use danubia::map::{Direction, Grid, Search, Tile, FACTION_UNCONTROLLED};
use std::rc::Rc;

fn generate_grid() -> Grid {
    let scene = generate_scene();

    Grid::new(Rc::clone(&scene))
}

#[test]
fn grid_get_cost() {
    let grid = generate_grid();

    assert_eq!(grid.get_cost(&(0, 0), Direction::Up), 0);
    assert_eq!(grid.get_cost(&(0, 0), Direction::Right), 2);
    assert_eq!(grid.get_cost(&(0, 0), Direction::Left), 0);
    assert_eq!(grid.get_cost(&(0, 0), Direction::Down), 0);
    assert_eq!(grid.get_cost(&(0, 1), Direction::Up), 0);
    assert_eq!(grid.get_cost(&(0, 1), Direction::Right), 2);
    assert_eq!(grid.get_cost(&(0, 1), Direction::Left), 2);
    assert_eq!(grid.get_cost(&(0, 1), Direction::Down), 2);
    assert_eq!(grid.get_cost(&(0, 2), Direction::Up), 0);
    assert_eq!(grid.get_cost(&(0, 2), Direction::Right), 0);
    assert_eq!(grid.get_cost(&(0, 2), Direction::Left), 2);
    assert_eq!(grid.get_cost(&(0, 2), Direction::Down), 0);

    assert_eq!(grid.get_cost(&(1, 0), Direction::Up), 0);
    assert_eq!(grid.get_cost(&(1, 0), Direction::Right), 3);
    assert_eq!(grid.get_cost(&(1, 0), Direction::Left), 0);
    assert_eq!(grid.get_cost(&(1, 0), Direction::Down), 0);
    assert_eq!(grid.get_cost(&(1, 1), Direction::Up), 1);
    assert_eq!(grid.get_cost(&(1, 1), Direction::Right), 0);
    assert_eq!(grid.get_cost(&(1, 1), Direction::Left), 3);
    assert_eq!(grid.get_cost(&(1, 1), Direction::Down), 0);
    assert_eq!(grid.get_cost(&(1, 2), Direction::Up), 0);
    assert_eq!(grid.get_cost(&(1, 2), Direction::Right), 0);
    assert_eq!(grid.get_cost(&(1, 2), Direction::Left), 0);
    assert_eq!(grid.get_cost(&(1, 2), Direction::Down), 0);
}

#[test]
fn grid_is_impassable() {
    let grid = generate_grid();

    // Test passable
    assert!(!grid.is_impassable(&(0, 0)));
    // Test impassable
    assert!(grid.is_impassable(&(1, 2)));
}

#[test]
fn grid_is_occupied() {
    let mut grid = generate_grid();

    // Test empty
    assert!(!grid.is_occupied(&(0, 0)));
    // Test occupied
    grid.insert_unit_location(0, (0, 0));
    assert!(grid.is_occupied(&(0, 0)));
}

#[test]
fn grid_is_placeable() {
    let mut grid = generate_grid();

    // Test passable
    assert!(grid.is_placeable(&(0, 0)));
    assert!(grid.is_placeable(&(0, 1)));
    assert!(grid.is_placeable(&(0, 2)));
    assert!(grid.is_placeable(&(1, 0)));
    assert!(grid.is_placeable(&(1, 1)));
    // Test impassable
    assert!(!grid.is_placeable(&(1, 2)));
    // Test occupied
    grid.insert_unit_location(0, (0, 0));
    assert!(!grid.is_placeable(&(0, 0)));
}

#[test]
fn grid_find_nearest_placeable() {
    let mut grid = generate_grid();

    // Test empty find
    assert_eq!(grid.find_nearest_placeable(&(0, 0)), (0, 0));
    // Test non-empty find
    grid.place_unit(0, (0, 0));
    assert!(grid.find_nearest_placeable(&(0, 0)) == (0, 1)
        || grid.find_nearest_placeable(&(0, 0)) == (1, 0)
    );
}

#[test]
fn grid_find_distance_between() {
    let mut grid = generate_grid();

    grid.place_unit(0, (0, 0));
    grid.place_unit(1, (0, 1));
    grid.place_unit(2, (1, 1));
    assert_eq!(grid.find_distance_between(&0, &1), 1);
    assert_eq!(grid.find_distance_between(&1, &0), 1);
    assert_eq!(grid.find_distance_between(&0, &2), 2);
    assert_eq!(grid.find_distance_between(&2, &0), 2);
    assert_eq!(grid.find_distance_between(&1, &2), 1);
    assert_eq!(grid.find_distance_between(&2, &1), 1);
}

#[test]
fn grid_try_connect() {
    let grid = generate_grid();

    assert!(grid.try_connect(&(0, 0), Direction::Up).is_none());
    assert_eq!(grid.try_connect(&(0, 0), Direction::Right).unwrap(), (0, 1));
    assert!(grid.try_connect(&(0, 0), Direction::Left).is_none());
    assert_eq!(grid.try_connect(&(0, 0), Direction::Down).unwrap(), (1, 0));
    assert!(grid.try_connect(&(0, 1), Direction::Up).is_none());
    assert_eq!(grid.try_connect(&(0, 1), Direction::Right).unwrap(), (0, 2));
    assert_eq!(grid.try_connect(&(0, 1), Direction::Left).unwrap(), (0, 0));
    assert_eq!(grid.try_connect(&(0, 1), Direction::Down).unwrap(), (1, 1));
    assert!(grid.try_connect(&(0, 2), Direction::Up).is_none());
    assert!(grid.try_connect(&(0, 2), Direction::Right).is_none());
    assert_eq!(grid.try_connect(&(0, 2), Direction::Left).unwrap(), (0, 1));
    assert_eq!(grid.try_connect(&(0, 2), Direction::Down).unwrap(), (1, 2));

    assert_eq!(grid.try_connect(&(1, 0), Direction::Up).unwrap(), (0, 0));
    assert_eq!(grid.try_connect(&(1, 0), Direction::Right).unwrap(), (1, 1));
    assert!(grid.try_connect(&(1, 0), Direction::Left).is_none());
    assert!(grid.try_connect(&(1, 0), Direction::Down).is_none());
    assert_eq!(grid.try_connect(&(1, 1), Direction::Up).unwrap(), (0, 1));
    assert_eq!(grid.try_connect(&(1, 1), Direction::Right).unwrap(), (1, 2));
    assert_eq!(grid.try_connect(&(1, 1), Direction::Left).unwrap(), (1, 0));
    assert!(grid.try_connect(&(1, 1), Direction::Down).is_none());
    assert_eq!(grid.try_connect(&(1, 2), Direction::Up).unwrap(), (0, 2));
    assert!(grid.try_connect(&(1, 2), Direction::Right).is_none());
    assert_eq!(grid.try_connect(&(1, 2), Direction::Left).unwrap(), (1, 1));
    assert!(grid.try_connect(&(1, 2), Direction::Down).is_none());
}

#[test]
fn grid_try_move() {
    let mut grid = generate_grid();

    // Test empty move
    assert!(grid.try_move(&(0, 0), Direction::Up).is_none());
    assert_eq!(grid.try_move(&(0, 0), Direction::Right).unwrap(), ((0, 1), 2));
    assert!(grid.try_move(&(0, 0), Direction::Left).is_none());
    assert!(grid.try_move(&(0, 0), Direction::Down).is_none());
    assert!(grid.try_move(&(0, 1), Direction::Up).is_none());
    assert_eq!(grid.try_move(&(0, 1), Direction::Right).unwrap(), ((0, 2), 2));
    assert_eq!(grid.try_move(&(0, 1), Direction::Left).unwrap(), ((0, 0), 2));
    assert_eq!(grid.try_move(&(0, 1), Direction::Down).unwrap(), ((1, 1), 2));
    assert!(grid.try_move(&(0, 2), Direction::Up).is_none());
    assert!(grid.try_move(&(0, 2), Direction::Right).is_none());
    assert_eq!(grid.try_move(&(0, 2), Direction::Left).unwrap(), ((0, 1), 2));
    assert!(grid.try_move(&(0, 2), Direction::Down).is_none());

    assert!(grid.try_move(&(1, 0), Direction::Up).is_none());
    assert_eq!(grid.try_move(&(1, 0), Direction::Right).unwrap(), ((1, 1), 3));
    assert!(grid.try_move(&(1, 0), Direction::Left).is_none());
    assert!(grid.try_move(&(1, 0), Direction::Down).is_none());
    assert_eq!(grid.try_move(&(1, 1), Direction::Up).unwrap(), ((0, 1), 1));
    assert!(grid.try_move(&(1, 1), Direction::Right).is_none());
    assert_eq!(grid.try_move(&(1, 1), Direction::Left).unwrap(), ((1, 0), 3));
    assert!(grid.try_move(&(1, 1), Direction::Down).is_none());
    assert!(grid.try_move(&(1, 2), Direction::Up).is_none());
    assert!(grid.try_move(&(1, 2), Direction::Right).is_none());
    assert!(grid.try_move(&(1, 2), Direction::Left).is_none());
    assert!(grid.try_move(&(1, 2), Direction::Down).is_none());

    // Test non-empty move
    grid.insert_unit_location(0, (0, 1));
    assert!(grid.try_move(&(0, 0), Direction::Right).is_none());
    assert!(grid.try_move(&(0, 2), Direction::Left).is_none());
    assert!(grid.try_move(&(1, 1), Direction::Up).is_none());
}

#[test]
fn grid_update_adjacency() {
    let scene = generate_scene();
    let tiles_updated: Vec<Vec<Tile>> = vec![
        vec![Tile::new(Rc::clone(&scene), 0, 10, Some(0)), Tile::new(Rc::clone(&scene), 0, 1, None), Tile::new(Rc::clone(&scene), 0, 0, Some(1))],
        vec![Tile::new(Rc::clone(&scene), 1, 2, Some(2)), Tile::new(Rc::clone(&scene), 1, 1, None), Tile::new(Rc::clone(&scene), 0, 0, None)],
    ];
    let mut grid = generate_grid();

    grid.set_tiles(tiles_updated);

    // Test impassable update
    grid.update_adjacency(&(0, 0));
    assert!(grid.try_move(&(0, 1), Direction::Left).is_none());
    assert!(grid.try_move(&(1, 0), Direction::Up).is_none());
    // Test passable update
    grid.update_adjacency(&(1, 2));
    assert_eq!(grid.try_move(&(0, 2), Direction::Down).unwrap(), ((1, 2), 1));
    assert_eq!(grid.try_move(&(1, 1), Direction::Right).unwrap(), ((1, 2), 2));
}

#[test]
fn grid_place_unit() {
    let mut grid = generate_grid();

    // Test empty place
    assert_eq!(grid.place_unit(0, (0, 0)).unwrap(), 0);
    assert_eq!(grid.get_location_faction(&(0, 0)), &0);
    // Test impassable place
    assert!(grid.place_unit(1, (1, 2)).is_none());
    // Test non-empty place
    assert!(grid.place_unit(2, (0, 0)).is_none());
}

#[test]
fn grid_move_unit() {
    let mut grid = generate_grid();

    grid.place_unit(0, (0, 0));

    assert!(grid.move_unit(0, &[Direction::Up]).is_none()); // Test out-of-bounds move
    assert!(grid.move_unit(0, &[Direction::Left]).is_none()); // Test out-of-bounds move
    assert!(grid.move_unit(0, &[Direction::Down]).is_none()); // Test not climbable move
    // Test normal move
    assert_eq!(grid.get_location_faction(&(0, 1)), &FACTION_UNCONTROLLED);
    let response = grid.move_unit(0, &[Direction::Right]).unwrap();
    assert_eq!(response.0, (0, 1));
    assert_eq!(response.1, 0);
    assert_eq!(grid.get_unit_location(&0), &(0, 1));
    assert_eq!(grid.get_location_faction(&(0, 0)), &0);
    assert_eq!(grid.get_location_faction(&(0, 1)), &0);
    // Test sequential move
    assert_eq!(grid.get_location_faction(&(0, 2)), &FACTION_UNCONTROLLED);
    assert_eq!(grid.get_location_faction(&(1, 1)), &FACTION_UNCONTROLLED);
    let response = grid.move_unit(0, &[Direction::Right, Direction::Left, Direction::Down]).unwrap(); // Test overlapping move
    assert_eq!(response.0, (1, 1));
    assert_eq!(response.1, 1);
    assert_eq!(grid.get_unit_location(&0), &(1, 1));
    assert_eq!(grid.get_location_faction(&(0, 1)), &0);
    assert_eq!(grid.get_location_faction(&(0, 2)), &0);
    assert_eq!(grid.get_location_faction(&(1, 1)), &0);
    // Test atomic move
    assert!(grid.move_unit(0, &[Direction::Left, Direction::Right, Direction::Right]).is_none()); // Test impassable move
    assert_eq!(grid.get_unit_location(&0), &(1, 1));
}

#[test]
fn grid_find_unit_movable() {
    let mut grid = generate_grid();

    grid.place_unit(0, (0, 0));

    // Test empty move
    let response = grid.find_unit_movable(&0, 1);
    assert_eq!(response.len(), 1);
    assert!(response.contains(&(0, 0)));
    // Test normal move
    let response = grid.find_unit_movable(&0, 2);
    assert_eq!(response.len(), 2);
    assert!(response.contains(&(0, 0)));
    assert!(response.contains(&(0, 1)));
    let response = grid.find_unit_movable(&0, 3);
    assert_eq!(response.len(), 2);
    assert!(response.contains(&(0, 0)));
    assert!(response.contains(&(0, 1)));
    let response = grid.find_unit_movable(&0, 4);
    assert_eq!(response.len(), 4);
    assert!(response.contains(&(0, 0)));
    assert!(response.contains(&(0, 1)));
    assert!(response.contains(&(0, 2)));
    assert!(response.contains(&(1, 1)));
    let response = grid.find_unit_movable(&0, 5);
    assert_eq!(response.len(), 4);
    assert!(response.contains(&(0, 0)));
    assert!(response.contains(&(0, 1)));
    assert!(response.contains(&(0, 2)));
    assert!(response.contains(&(1, 1)));
    let response = grid.find_unit_movable(&0, 6);
    assert_eq!(response.len(), 4);
    assert!(response.contains(&(0, 0)));
    assert!(response.contains(&(0, 1)));
    assert!(response.contains(&(0, 2)));
    assert!(response.contains(&(1, 1)));
    let response = grid.find_unit_movable(&0, 7);
    assert_eq!(response.len(), 5);
    assert!(response.contains(&(0, 0)));
    assert!(response.contains(&(0, 1)));
    assert!(response.contains(&(0, 2)));
    assert!(response.contains(&(1, 1)));
    assert!(response.contains(&(1, 0)));
}

#[test]
fn grid_find_unit_cities() {
    let mut grid = generate_grid();

    // Test no supply
    grid.place_unit(0, (0, 1));
    assert!(grid.find_unit_cities(&0).is_empty());
    grid.move_unit(0, &[Direction::Down]);
    assert!(grid.find_unit_cities(&0).is_empty());
    // Test contested supply
    grid.place_unit(2, (0, 0));
    assert!(grid.find_unit_cities(&0).is_empty());
    assert_eq!(grid.find_unit_cities(&2).len(), 1);
    // Test normal supply
    grid.place_unit(1, (0, 2));
    assert_eq!(grid.find_unit_cities(&0).len(), 1);
    assert_eq!(grid.find_unit_cities(&1).len(), 1);
    assert_eq!(grid.find_unit_cities(&2).len(), 1);
    // Test multiple supply
    grid.place_unit(3, (1, 0));
    assert_eq!(grid.find_unit_cities(&0).len(), 2);
    assert_eq!(grid.find_unit_cities(&1).len(), 2);
    assert_eq!(grid.find_unit_cities(&2).len(), 1);
}

#[test]
fn grid_find_locations() {
    let grid = generate_grid();

    assert_eq!(grid.find_locations(&(0, 0), Search::Single).len(), 1);
    assert_eq!(grid.find_locations(&(0, 1), Search::Single).len(), 1);
    assert_eq!(grid.find_locations(&(0, 2), Search::Single).len(), 1);
    assert_eq!(grid.find_locations(&(1, 0), Search::Single).len(), 1);
    assert_eq!(grid.find_locations(&(1, 1), Search::Single).len(), 1);
    assert_eq!(grid.find_locations(&(1, 2), Search::Single).len(), 1);

    assert_eq!(grid.find_locations(&(0, 0), Search::Path(1, 1, Direction::Right)).len(), 2);
    assert_eq!(grid.find_locations(&(0, 1), Search::Path(1, 1, Direction::Down)).len(), 3);
    assert_eq!(grid.find_locations(&(0, 2), Search::Path(1, 1, Direction::Left)).len(), 2);
    assert_eq!(grid.find_locations(&(1, 0), Search::Path(1, 1, Direction::Right)).len(), 2);
    assert_eq!(grid.find_locations(&(1, 1), Search::Path(1, 1, Direction::Up)).len(), 3);
    assert_eq!(grid.find_locations(&(1, 2), Search::Path(1, 1, Direction::Left)).len(), 2);

    assert_eq!(grid.find_locations(&(0, 0), Search::Path(0, 2, Direction::Right)).len(), 2);
    assert_eq!(grid.find_locations(&(0, 1), Search::Path(0, 2, Direction::Down)).len(), 1);
    assert_eq!(grid.find_locations(&(0, 2), Search::Path(0, 2, Direction::Left)).len(), 2);
    assert_eq!(grid.find_locations(&(1, 0), Search::Path(0, 2, Direction::Right)).len(), 2);
    assert_eq!(grid.find_locations(&(1, 1), Search::Path(0, 2, Direction::Up)).len(), 1);
    assert_eq!(grid.find_locations(&(1, 2), Search::Path(0, 2, Direction::Left)).len(), 2);

    assert_eq!(grid.find_locations(&(0, 0), Search::Radial(1)).len(), 3);
    assert_eq!(grid.find_locations(&(0, 1), Search::Radial(1)).len(), 4);
    assert_eq!(grid.find_locations(&(0, 2), Search::Radial(1)).len(), 3);
    assert_eq!(grid.find_locations(&(1, 0), Search::Radial(1)).len(), 3);
    assert_eq!(grid.find_locations(&(1, 1), Search::Radial(1)).len(), 4);
    assert_eq!(grid.find_locations(&(1, 2), Search::Radial(1)).len(), 3);

    assert_eq!(grid.find_locations(&(0, 0), Search::Radial(2)).len(), 5);
    assert_eq!(grid.find_locations(&(0, 1), Search::Radial(2)).len(), 6);
    assert_eq!(grid.find_locations(&(0, 2), Search::Radial(2)).len(), 5);
    assert_eq!(grid.find_locations(&(1, 0), Search::Radial(2)).len(), 5);
    assert_eq!(grid.find_locations(&(1, 1), Search::Radial(2)).len(), 6);
    assert_eq!(grid.find_locations(&(1, 2), Search::Radial(2)).len(), 5);
}

#[test]
fn grid_find_units() {
    let mut grid = generate_grid();

    // Test empty find
    assert!(grid.find_units(&(0, 0), Search::Single).is_empty());
    assert!(grid.find_units(&(0, 1), Search::Single).is_empty());
    assert!(grid.find_units(&(0, 2), Search::Single).is_empty());
    assert!(grid.find_units(&(1, 0), Search::Single).is_empty());
    assert!(grid.find_units(&(1, 1), Search::Single).is_empty());
    assert!(grid.find_units(&(1, 2), Search::Single).is_empty());

    assert!(grid.find_units(&(0, 0), Search::Path(1, 1, Direction::Right)).is_empty());
    assert!(grid.find_units(&(0, 1), Search::Path(1, 1, Direction::Down)).is_empty());
    assert!(grid.find_units(&(0, 2), Search::Path(1, 1, Direction::Left)).is_empty());
    assert!(grid.find_units(&(1, 0), Search::Path(1, 1, Direction::Right)).is_empty());
    assert!(grid.find_units(&(1, 1), Search::Path(1, 1, Direction::Up)).is_empty());
    assert!(grid.find_units(&(1, 2), Search::Path(1, 1, Direction::Left)).is_empty());

    assert!(grid.find_units(&(0, 0), Search::Path(0, 2, Direction::Right)).is_empty());
    assert!(grid.find_units(&(0, 1), Search::Path(0, 2, Direction::Down)).is_empty());
    assert!(grid.find_units(&(0, 2), Search::Path(0, 2, Direction::Left)).is_empty());
    assert!(grid.find_units(&(1, 0), Search::Path(0, 2, Direction::Right)).is_empty());
    assert!(grid.find_units(&(1, 1), Search::Path(0, 2, Direction::Up)).is_empty());
    assert!(grid.find_units(&(1, 2), Search::Path(0, 2, Direction::Left)).is_empty());

    assert!(grid.find_units(&(0, 0), Search::Radial(1)).is_empty());
    assert!(grid.find_units(&(0, 1), Search::Radial(1)).is_empty());
    assert!(grid.find_units(&(0, 2), Search::Radial(1)).is_empty());
    assert!(grid.find_units(&(1, 0), Search::Radial(1)).is_empty());
    assert!(grid.find_units(&(1, 1), Search::Radial(1)).is_empty());
    assert!(grid.find_units(&(1, 2), Search::Radial(1)).is_empty());

    assert!(grid.find_units(&(0, 0), Search::Radial(2)).is_empty());
    assert!(grid.find_units(&(0, 1), Search::Radial(2)).is_empty());
    assert!(grid.find_units(&(0, 2), Search::Radial(2)).is_empty());
    assert!(grid.find_units(&(1, 0), Search::Radial(2)).is_empty());
    assert!(grid.find_units(&(1, 1), Search::Radial(2)).is_empty());
    assert!(grid.find_units(&(1, 2), Search::Radial(2)).is_empty());
    // Test non-empty find
    grid.place_unit(0, (0, 0));
    grid.place_unit(1, (0, 1));
    grid.place_unit(2, (0, 2));
    grid.place_unit(3, (1, 0));
    grid.place_unit(4, (1, 1));
    assert_eq!(grid.find_units(&(0, 0), Search::Single).len(), 1);
    assert_eq!(grid.find_units(&(0, 1), Search::Single).len(), 1);
    assert_eq!(grid.find_units(&(0, 2), Search::Single).len(), 1);
    assert_eq!(grid.find_units(&(1, 0), Search::Single).len(), 1);
    assert_eq!(grid.find_units(&(1, 1), Search::Single).len(), 1);
    assert!(grid.find_units(&(1, 2), Search::Single).is_empty());

    assert_eq!(grid.find_units(&(0, 0), Search::Path(1, 1, Direction::Right)).len(), 2);
    assert_eq!(grid.find_units(&(0, 1), Search::Path(1, 1, Direction::Down)).len(), 2);
    assert_eq!(grid.find_units(&(0, 2), Search::Path(1, 1, Direction::Left)).len(), 2);
    assert_eq!(grid.find_units(&(1, 0), Search::Path(1, 1, Direction::Right)).len(), 2);
    assert_eq!(grid.find_units(&(1, 1), Search::Path(1, 1, Direction::Up)).len(), 3);
    assert_eq!(grid.find_units(&(1, 2), Search::Path(1, 1, Direction::Left)).len(), 2);

    assert_eq!(grid.find_units(&(0, 0), Search::Path(0, 2, Direction::Right)).len(), 2);
    assert_eq!(grid.find_units(&(0, 1), Search::Path(0, 2, Direction::Down)).len(), 1);
    assert_eq!(grid.find_units(&(0, 2), Search::Path(0, 2, Direction::Left)).len(), 2);
    assert_eq!(grid.find_units(&(1, 0), Search::Path(0, 2, Direction::Right)).len(), 1);
    assert_eq!(grid.find_units(&(1, 1), Search::Path(0, 2, Direction::Up)).len(), 1);
    assert_eq!(grid.find_units(&(1, 2), Search::Path(0, 2, Direction::Left)).len(), 2);

    assert_eq!(grid.find_units(&(0, 0), Search::Radial(1)).len(), 3);
    assert_eq!(grid.find_units(&(0, 1), Search::Radial(1)).len(), 4);
    assert_eq!(grid.find_units(&(0, 2), Search::Radial(1)).len(), 2);
    assert_eq!(grid.find_units(&(1, 0), Search::Radial(1)).len(), 3);
    assert_eq!(grid.find_units(&(1, 1), Search::Radial(1)).len(), 3);
    assert_eq!(grid.find_units(&(1, 2), Search::Radial(1)).len(), 2);

    assert_eq!(grid.find_units(&(0, 0), Search::Radial(2)).len(), 5);
    assert_eq!(grid.find_units(&(0, 1), Search::Radial(2)).len(), 5);
    assert_eq!(grid.find_units(&(0, 2), Search::Radial(2)).len(), 4);
    assert_eq!(grid.find_units(&(1, 0), Search::Radial(2)).len(), 4);
    assert_eq!(grid.find_units(&(1, 1), Search::Radial(2)).len(), 5);
    assert_eq!(grid.find_units(&(1, 2), Search::Radial(2)).len(), 4);
}

#[test]
fn grid_add_appliable() {
    let scene = generate_scene();
    let mut grid = generate_grid();
    let attribute_2 = *scene.get_attribute(&2);
    let attribute_2 = AppliableBox::Attribute(attribute_2);
    let modifier_1 = *scene.get_modifier(&1);
    let modifier_1 = AppliableBox::Modifier(modifier_1);

    assert!(grid.add_appliable(&(0, 0), attribute_2));
    assert!(grid.get_tile(&(0, 0)).try_yield_appliable(Rc::clone(&scene)).is_some());
    let cost_down_0: u8 = grid.get_cost(&(0, 0), Direction::Down);
    let cost_left_0: u8 = grid.get_cost(&(1, 1), Direction::Left);
    assert!(grid.add_appliable(&(1, 0), modifier_1));
    let cost_down_1: u8 = grid.get_cost(&(0, 0), Direction::Down);
    let cost_left_1: u8 = grid.get_cost(&(1, 1), Direction::Left);
    assert_eq!(cost_down_0, 0);
    assert_eq!(cost_down_1, 0);
    assert!(cost_left_0 > cost_left_1);
}

#[test]
fn grid_try_spawn_recruit() {
    let mut grid = generate_grid();

    // Test empty spawn
    assert!(grid.try_spawn_recruit((0, 1), &0).is_none());
    // Test normal spawn
    assert_eq!(grid.try_spawn_recruit((0, 0), &0).unwrap(), (1, 0));
    assert_eq!(grid.get_unit_location(&1), &(0, 0));
    // Test repeated spawn
    assert!(grid.try_spawn_recruit((0, 0), &0).is_none());
}

#[test]
fn grid_find_locations_supplied() {
    let mut grid = generate_grid();

    // Test normal find
    grid.place_unit(0, (0, 0));
    let response = grid.find_locations_supplied(&0);
    assert_eq!(response.len(), 1);
    assert!(response.contains(&(0, 0)));
    // Test disconnected find
    grid.place_unit(1, (0, 2));
    let response = grid.find_locations_supplied(&1);
    assert_eq!(response.len(), 1);
    assert!(response.contains(&(0, 2)));
    // Test connected find
    grid.move_unit(0, &[Direction::Right]);
    let response = grid.find_locations_supplied(&0);
    assert_eq!(response.len(), 3);
    assert!(response.contains(&(0, 0)));
    assert!(response.contains(&(0, 1)));
    assert!(response.contains(&(0, 2)));
}

#[test]
fn grid_expand_control() {
    let mut grid = generate_grid();

    // Test normal expand
    grid.place_unit(0, (0, 0));
    grid.expand_control(&0);
    let response = grid.get_faction_locations(&0).unwrap();
    assert_eq!(response.len(), 2);
    assert!(response.contains(&(0, 0)));
    assert!(response.contains(&(0, 1)));
    // Test blocked expand
    grid.place_unit(2, (1, 1));
    grid.expand_control(&0);
    let response = grid.get_faction_locations(&0).unwrap();
    assert_eq!(response.len(), 2);
    assert!(response.contains(&(0, 0)));
    assert!(response.contains(&(0, 1)));
    // Test encircled expand
    grid.expand_control(&2);
    let response = grid.get_faction_locations(&1).unwrap();
    assert_eq!(response.len(), 1);
    assert!(response.contains(&(1, 1)));
}

#[test]
fn grid_decrement_durations() {
    let scene = generate_scene();
    let mut grid = generate_grid();
    let attribute_2 = *scene.get_attribute(&2);
    let mut attribute_2 = attribute_2;
    let modifier_2 = *scene.get_modifier(&2);
    let mut modifier_2 = modifier_2;

    attribute_2.set_applier_id(0);
    modifier_2.set_applier_id(1);
    grid.add_appliable(&(0, 0), AppliableBox::Attribute(attribute_2));
    grid.add_appliable(&(1, 1), AppliableBox::Modifier(modifier_2));

    grid.decrement_durations(&0);
    assert!(grid.try_yield_appliable(&(0, 0)).is_some());
    assert!(grid.get_modifier(&(1, 1)).is_some());
    grid.decrement_durations(&0);
    assert!(grid.try_yield_appliable(&(0, 0)).is_some());
    assert!(grid.get_modifier(&(1, 1)).is_some());
    grid.decrement_durations(&0);
    assert!(grid.try_yield_appliable(&(0, 0)).is_none());
    assert!(grid.get_modifier(&(1, 1)).is_some());
    assert!(grid.get_modifier(&(1, 1)).unwrap().get_next_id().is_some());
    grid.decrement_durations(&1);
    assert!(grid.get_modifier(&(1, 1)).is_some());
    assert!(grid.get_modifier(&(1, 1)).unwrap().get_next_id().is_some());
    grid.decrement_durations(&1);
    assert!(grid.get_modifier(&(1, 1)).is_some());
    assert!(grid.get_modifier(&(1, 1)).unwrap().get_next_id().is_none());
}
