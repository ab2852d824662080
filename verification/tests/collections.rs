use danubia::collections::{CrossJoinMap, DuplicateInnerMap, OuterJoinMap};

#[test]
fn cross_join_map_insert() {
    let mut map: CrossJoinMap<u8, (u8, u8)> = CrossJoinMap::new();

    // Test empty insert
    assert!(map.insert((0, (0, 0))));
    // Test non-colliding insert
    assert!(map.insert((1, (1, 1))));
    // Test colliding insert
    assert!(map.insert((1, (0, 0))));
    assert!(map.insert((1, (2, 2))));
}

#[test]
fn cross_join_map_get() {
    let mut map: CrossJoinMap<u8, (u8, u8)> = CrossJoinMap::new();

    // Test empty get
    assert!(map.get_first(&0).is_none());
    assert!(map.get_second(&(0, 0)).is_none());
    // Test non-empty get
    map.insert((0, (0, 0)));
    assert_eq!(map.get_first(&0).unwrap().len(), 1);
    assert_eq!(map.get_second(&(0, 0)).unwrap().len(), 1);
    // Test non-colliding get
    map.insert((1, (1, 1)));
    assert_eq!(map.get_first(&1).unwrap().len(), 1);
    assert_eq!(map.get_second(&(1, 1)).unwrap().len(), 1);
    assert_eq!(map.get_first(&0).unwrap().len(), 1);
    assert_eq!(map.get_second(&(0, 0)).unwrap().len(), 1);
    // Test colliding get
    map.insert((1, (2, 2)));
    assert_eq!(map.get_first(&1).unwrap().len(), 2);
    assert_eq!(map.get_second(&(1, 1)).unwrap().len(), 1);
    assert_eq!(map.get_second(&(2, 2)).unwrap().len(), 1);
    map.insert((2, (2, 2)));
    assert_eq!(map.get_first(&2).unwrap().len(), 1);
    assert_eq!(map.get_second(&(2, 2)).unwrap().len(), 2);
}

#[test]
fn cross_join_map_remove() {
    let mut map: CrossJoinMap<u8, (u8, u8)> = CrossJoinMap::new();

    // Test empty remove
    assert!(!map.remove(&0, &(0, 0)));
    assert!(!map.remove_first(&0));
    assert!(!map.remove_second(&(0, 0)));
    // Test non-empty remove
    map.insert((0, (0, 0)));
    assert!(map.remove(&0, &(0, 0)));
    assert!(map.get_first(&0).unwrap().is_empty());
    assert!(map.get_second(&(0, 0)).unwrap().is_empty());
    map.insert((0, (0, 0)));
    assert!(map.remove_first(&0));
    assert!(map.get_first(&0).is_none());
    assert!(map.get_second(&(0, 0)).unwrap().is_empty());
    map.insert((0, (0, 0)));
    assert!(map.remove_second(&(0, 0)));
    assert!(map.get_first(&0).unwrap().is_empty());
    assert!(map.get_second(&(0, 0)).is_none());
    // Test colliding remove
    map.insert((0, (0, 0)));
    map.insert((1, (0, 0)));
    assert!(map.remove(&0, &(0, 0)));
    assert!(map.get_first(&0).unwrap().is_empty());
    assert_eq!(map.get_first(&1).unwrap().len(), 1);
    assert_eq!(map.get_second(&(0, 0)).unwrap().len(), 1);
    map.insert((0, (0, 0)));
    map.insert((1, (0, 0)));
    assert!(map.remove_first(&0));
    assert!(map.get_first(&0).is_none());
    assert_eq!(map.get_first(&1).unwrap().len(), 1);
    assert_eq!(map.get_second(&(0, 0)).unwrap().len(), 1);
    map.insert((0, (0, 0)));
    map.insert((0, (1, 1)));
    assert!(map.remove_second(&(0, 0)));
    assert_eq!(map.get_first(&0).unwrap().len(), 1);
    assert!(map.get_second(&(0, 0)).is_none());
    assert_eq!(map.get_second(&(1, 1)).unwrap().len(), 1);
}

#[test]
fn cross_join_map_contains_key() {
    let mut map: CrossJoinMap<u8, (u8, u8)> = CrossJoinMap::new();

    // Test empty contains
    assert!(!map.contains_key_first(&0));
    assert!(!map.contains_key_second(&(0, 0)));
    // Test non-empty contains
    map.insert((0, (0, 0)));
    assert!(map.contains_key_first(&0));
    assert!(map.contains_key_second(&(0, 0)));
    assert!(!map.contains_key_first(&1));
    assert!(!map.contains_key_second(&(1, 1)));
}

#[test]
fn duplicate_cross_map_insert() {
    let mut map: CrossJoinMap<u8, (u8, u8)> = CrossJoinMap::new();

    // Test empty insert
    assert_eq!(map.insert((0, (0, 0))), true);
    // Test non-colliding insert
    assert_eq!(map.insert((1, (1, 1))), true);
    // Test colliding insert
    assert_eq!(map.insert((1, (0, 0))), true);
    assert_eq!(map.insert((1, (2, 2))), true);
}

#[test]
fn duplicate_cross_map_get() {
    let mut map: CrossJoinMap<u8, (u8, u8)> = CrossJoinMap::new();

    // Test empty get
    assert_eq!(map.get_first(&0), None);
    assert_eq!(map.get_second(&(0, 0)), None);
    // Test non-empty get
    map.insert((0, (0, 0)));
    assert_eq!(map.get_first(&0).unwrap().len(), 1);
    assert_eq!(map.get_second(&(0, 0)).unwrap().len(), 1);
    // Test non-colliding get
    map.insert((1, (1, 1)));
    assert_eq!(map.get_first(&1).unwrap().len(), 1);
    assert_eq!(map.get_second(&(1, 1)).unwrap().len(), 1);
    assert_eq!(map.get_first(&0).unwrap().len(), 1);
    assert_eq!(map.get_second(&(0, 0)).unwrap().len(), 1);
    // Test colliding get
    map.insert((1, (2, 2)));
    assert_eq!(map.get_first(&1).unwrap().len(), 2);
    assert_eq!(map.get_second(&(1, 1)).unwrap().len(), 1);
    assert_eq!(map.get_second(&(2, 2)).unwrap().len(), 1);
    map.insert((2, (2, 2)));
    assert_eq!(map.get_first(&2).unwrap().len(), 1);
    assert_eq!(map.get_second(&(2, 2)).unwrap().len(), 2);
}

#[test]
fn duplicate_cross_map_remove() {
    let mut map: CrossJoinMap<u8, (u8, u8)> = CrossJoinMap::new();

    // Test empty remove
    assert_eq!(map.remove(&0, &(0, 0)), false);
    assert_eq!(map.remove_first(&0), false);
    assert_eq!(map.remove_second(&(0, 0)), false);
    // Test non-empty remove
    map.insert((0, (0, 0)));
    assert_eq!(map.remove(&0, &(0, 0)), true);
    assert_eq!(map.get_first(&0).unwrap().len(), 0);
    assert_eq!(map.get_second(&(0, 0)).unwrap().len(), 0);
    map.insert((0, (0, 0)));
    assert_eq!(map.remove_first(&0), true);
    assert_eq!(map.get_first(&0), None);
    assert_eq!(map.get_second(&(0, 0)).unwrap().len(), 0);
    map.insert((0, (0, 0)));
    assert_eq!(map.remove_second(&(0, 0)), true);
    assert_eq!(map.get_first(&0).unwrap().len(), 0);
    assert_eq!(map.get_second(&(0, 0)), None);
    // Test colliding remove
    map.insert((0, (0, 0)));
    map.insert((1, (0, 0)));
    assert_eq!(map.remove(&0, &(0, 0)), true);
    assert_eq!(map.get_first(&0).unwrap().len(), 0);
    assert_eq!(map.get_first(&1).unwrap().len(), 1);
    assert_eq!(map.get_second(&(0, 0)).unwrap().len(), 1);
    map.insert((0, (0, 0)));
    map.insert((1, (0, 0)));
    assert_eq!(map.remove_first(&0), true);
    assert_eq!(map.get_first(&0), None);
    assert_eq!(map.get_first(&1).unwrap().len(), 1);
    assert_eq!(map.get_second(&(0, 0)).unwrap().len(), 1);
    map.insert((0, (0, 0)));
    map.insert((0, (1, 1)));
    assert_eq!(map.remove_second(&(0, 0)), true);
    assert_eq!(map.get_first(&0).unwrap().len(), 1);
    assert_eq!(map.get_second(&(0, 0)), None);
    assert_eq!(map.get_second(&(1, 1)).unwrap().len(), 1);
}

#[test]
fn duplicate_cross_map_contains_key() {
    let mut map: CrossJoinMap<u8, (u8, u8)> = CrossJoinMap::new();

    // Test empty contains
    assert_eq!(map.contains_key_first(&0), false);
    assert_eq!(map.contains_key_second(&(0, 0)), false);
    // Test non-empty contains
    map.insert((0, (0, 0)));
    assert_eq!(map.contains_key_first(&0), true);
    assert_eq!(map.contains_key_second(&(0, 0)), true);
    assert_eq!(map.contains_key_first(&1), false);
    assert_eq!(map.contains_key_second(&(1, 1)), false);
}

#[test]
fn duplicate_outer_map_insert() {
    let mut map: OuterJoinMap<u8, (u8, u8)> = OuterJoinMap::new();

    // Test empty insert
    assert_eq!(map.insert((0, (0, 0))), true);
    // Test non-colliding insert
    assert_eq!(map.insert((1, (1, 1))), true);
    // Test colliding insert
    assert_eq!(map.insert((1, (0, 0))), false);
    assert_eq!(map.insert((1, (2, 2))), true);
}

#[test]
fn duplicate_outer_map_get() {
    let mut map: OuterJoinMap<u8, (u8, u8)> = OuterJoinMap::new();

    // Test empty get
    assert_eq!(map.get_first(&0), None);
    assert_eq!(map.get_second(&(0, 0)), None);
    // Test non-empty get
    map.insert((0, (0, 0)));
    assert_eq!(map.get_first(&0).unwrap().len(), 1);
    assert_eq!(map.get_second(&(0, 0)).unwrap(), &0);
    assert_eq!(map.get_collection_second(&(0, 0)).unwrap().len(), 1);
    // Test non-colliding get
    map.insert((1, (1, 1)));
    assert_eq!(map.get_first(&1).unwrap().len(), 1);
    assert_eq!(map.get_second(&(1, 1)).unwrap(), &1);
    assert_eq!(map.get_collection_second(&(1, 1)).unwrap().len(), 1);
    assert_eq!(map.get_first(&0).unwrap().len(), 1);
    assert_eq!(map.get_second(&(0, 0)).unwrap(), &0);
    assert_eq!(map.get_collection_second(&(0, 0)).unwrap().len(), 1);
    // Test colliding get
    map.insert((1, (2, 2)));
    assert_eq!(map.get_first(&1).unwrap().len(), 2);
    assert_eq!(map.get_second(&(1, 1)).unwrap(), &1);
    assert_eq!(map.get_collection_second(&(1, 1)).unwrap().len(), 2);
    assert_eq!(map.get_second(&(2, 2)).unwrap(), &1);
    assert_eq!(map.get_collection_second(&(2, 2)).unwrap().len(), 2);
}

#[test]
fn duplicate_outer_map_remove() {
    let mut map: OuterJoinMap<u8, (u8, u8)> = OuterJoinMap::new();

    // Test empty remove
    assert_eq!(map.remove(&(0, 0)), false);
    // Test non-empty remove
    map.insert((0, (0, 0)));
    assert_eq!(map.remove(&(0, 0)), true);
    assert_eq!(map.get_first(&0).unwrap().len(), 0);
    assert_eq!(map.get_second(&(0, 0)), None);
    assert_eq!(map.get_collection_second(&(0, 0)), None);
}

#[test]
fn duplicate_outer_map_replace() {
    let mut map: OuterJoinMap<u8, (u8, u8)> = OuterJoinMap::new();

    // Test empty replace
    assert_eq!(map.replace((0, 0), 0), None);
    // Test partial replace
    map.remove(&(0, 0));
    map.insert((0, (1, 1)));
    assert_eq!(map.replace((1, 1), 1).unwrap(), 0);
    assert_eq!(map.get_first(&1).unwrap().len(), 1);
    assert_eq!(map.get_second(&(1, 1)).unwrap(), &1);
    assert_eq!(map.get_collection_second(&(1, 1)).unwrap().len(), 1);
    assert_eq!(map.get_first(&0).unwrap().len(), 0);
    assert_eq!(map.get_second(&(0, 0)), None);
    // Test complete replace
    map.insert((1, (0, 0)));
    assert_eq!(map.replace((0, 0), 0).unwrap(), 1);
    assert_eq!(map.get_first(&0).unwrap().len(), 1);
    assert_eq!(map.get_second(&(0, 0)).unwrap(), &0);
    assert_eq!(map.get_collection_second(&(0, 0)).unwrap().len(), 1);
    assert_eq!(map.get_first(&1).unwrap().len(), 1);
    assert_eq!(map.get_second(&(1, 1)).unwrap(), &1);
}

#[test]
fn duplicate_outer_map_contains_key() {
    let mut map: OuterJoinMap<u8, (u8, u8)> = OuterJoinMap::new();

    // Test empty contains
    assert_eq!(map.contains_key_first(&0), false);
    assert_eq!(map.contains_key_second(&(0, 0)), false);
    // Test non-empty contains
    map.insert((0, (0, 0)));
    assert_eq!(map.contains_key_first(&0), true);
    assert_eq!(map.contains_key_second(&(0, 0)), true);
    assert_eq!(map.contains_key_first(&1), false);
    assert_eq!(map.contains_key_second(&(1, 1)), false);
}

#[test]
fn duplicate_inner_map_insert() {
    let mut map: DuplicateInnerMap<u8, (u8, u8)> = DuplicateInnerMap::new();

    // Test empty insert
    assert_eq!(map.insert((0, (0, 0))).unwrap(), (None, None));
    // Test non-colliding insert
    assert_eq!(map.insert((1, (1, 1))).unwrap(), (None, None));
    // Test colliding insert
    assert_eq!(map.insert((0, (1, 1))), None);
    assert_eq!(map.insert((1, (0, 0))), None);
}

#[test]
fn duplicate_inner_map_get() {
    let mut map: DuplicateInnerMap<u8, (u8, u8)> = DuplicateInnerMap::new();

    // Test empty get
    assert_eq!(map.get_first(&0), None);
    assert_eq!(map.get_second(&(0, 0)), None);
    // Test non-empty get
    map.insert((0, (0, 0)));
    assert_eq!(map.get_first(&0).unwrap(), &(0, 0));
    assert_eq!(map.get_second(&(0, 0)).unwrap(), &0);
    // Test non-colliding get
    map.insert((1, (1, 1)));
    assert_eq!(map.get_first(&1).unwrap(), &(1, 1));
    assert_eq!(map.get_second(&(1, 1)).unwrap(), &1);
    assert_eq!(map.get_first(&0).unwrap(), &(0, 0));
    assert_eq!(map.get_second(&(0, 0)).unwrap(), &0);
}

#[test]
fn duplicate_inner_map_remove() {
    let mut map: DuplicateInnerMap<u8, (u8, u8)> = DuplicateInnerMap::new();

    // Test empty remove
    assert_eq!(map.remove_first(&0), None);
    assert_eq!(map.remove_second(&(0, 0)), None);
    // Test non-empty remove
    map.insert((0, (0, 0)));
    assert_eq!(map.remove_first(&0).unwrap(), (0, 0));
    assert_eq!(map.get_first(&0), None);
    assert_eq!(map.get_second(&(0, 0)), None);
    map.insert((1, (1, 1)));
    assert_eq!(map.remove_second(&(1, 1)).unwrap(), 1);
    assert_eq!(map.get_first(&1), None);
    assert_eq!(map.get_second(&(1, 1)), None);
}

#[test]
fn duplicate_inner_map_replace() {
    let mut map: DuplicateInnerMap<u8, (u8, u8)> = DuplicateInnerMap::new();

    // Test empty replace
    assert_eq!(map.replace_first(0, (0, 0)), None);
    assert_eq!(map.replace_second((0, 0), 0), None);
    // Test partial replace
    map.insert((1, (0, 0)));
    assert_eq!(map.replace_first(1, (1, 1)).unwrap(), ((0, 0), None));
    assert_eq!(map.get_first(&1).unwrap(), &(1, 1));
    assert_eq!(map.get_second(&(1, 1)).unwrap(), &1);
    assert_eq!(map.get_second(&(0, 0)), None);
    map.insert((0, (2, 2)));
    assert_eq!(map.replace_second((2, 2), 2).unwrap(), (0, None));
    assert_eq!(map.get_first(&2).unwrap(), &(2, 2));
    assert_eq!(map.get_second(&(2, 2)).unwrap(), &2);
    assert_eq!(map.get_first(&0), None);
    // Test complete replace
    assert_eq!(map.replace_first(1, (2, 2)).unwrap(), ((1, 1), Some(2)));
    assert_eq!(map.get_first(&1).unwrap(), &(2, 2));
    assert_eq!(map.get_second(&(2, 2)).unwrap(), &1);
    assert_eq!(map.get_first(&2), None);
    assert_eq!(map.get_second(&(1, 1)), None);
    map.insert((3, (3, 3)));
    assert_eq!(map.replace_second((2, 2), 3).unwrap(), (1, Some((3, 3))));
    assert_eq!(map.get_first(&3).unwrap(), &(2, 2));
    assert_eq!(map.get_second(&(2, 2)).unwrap(), &3);
    assert_eq!(map.get_first(&1), None);
    assert_eq!(map.get_second(&(3, 3)), None);
}

#[test]
fn duplicate_inner_map_contains_key() {
    let mut map: DuplicateInnerMap<u8, (u8, u8)> = DuplicateInnerMap::new();

    // Test empty contains
    assert_eq!(map.contains_key_first(&0), false);
    assert_eq!(map.contains_key_second(&(0, 0)), false);
    // Test non-empty contains
    map.insert((0, (0, 0)));
    assert_eq!(map.contains_key_first(&0), true);
    assert_eq!(map.contains_key_second(&(0, 0)), true);
    assert_eq!(map.contains_key_first(&1), false);
    assert_eq!(map.contains_key_second(&(1, 1)), false);
}
