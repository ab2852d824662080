use danubia::character::{Faction, FactionBuilder, Unit, UnitStatistic, UnitStatistics, RECOVER_MRL};
use danubia::common::{generate_scene, Scene, ID};
use danubia::dynamic::{AppliableBox, Dynamic};
use danubia::error::DanubiaError;
use danubia::event::{Handler, Message, Observer, Response};
use danubia::map::{Direction, Grid};
use std::rc::Rc;

fn generate_all_units(scene: &Rc<Scene>) -> Vec<Unit> {
    let mut units: Vec<Unit> = Vec::new();

    for i in 0..5 {
        units.push(scene.get_unit_builder(&i).build(Rc::clone(scene)));
    }

    units
}

#[derive(Debug)]
struct Echo;

impl Observer for Echo {
    fn respond(&self, message: Message) -> Option<Response> {
        match message {
            Message::TestAdd => Some(Response::TestAdd(7)),
            Message::TestSubtract => None,
        }
    }

    fn set_observer_id(&self, _observer_id: ID) -> bool {
        true
    }
}

#[test]
fn damage_exact_value() {
    let scene = generate_scene();
    let units = generate_all_units(&scene);
    let weapon = *units[0].get_weapon();
    let damage = UnitStatistics::calculate_damage(&units[0].get_statistics(), &units[2].get_statistics(), &weapon);

    // attack 20 + damage 20 at full supply, times (0 lost morale + 1 manpower + 1 cohesion) = 80,
    // less armour 20 * 2 / 2 = 20, gives 60; magic (21 - 20) * 1 = 1
    assert_eq!(damage, (121, 121, 61));
}

#[test]
fn damage_retreating_defender() {
    let scene = generate_scene();
    let mut units = generate_all_units(&scene);
    let weapon = *units[0].get_weapon();

    units[2].change_statistic_flat(UnitStatistic::MRL, 750, false);
    assert!(units[2].is_retreat());
    assert!(!units[2].is_rout());
    let damage = UnitStatistics::calculate_damage(&units[0].get_statistics(), &units[2].get_statistics(), &weapon);

    // lost morale 75.0% raises the weapon damage to 40 * 2.75 = 110, less 20 gives 90;
    // a retreating defender takes twice the damage to manpower and supply
    assert_eq!(damage, (90 * 2 + 1, (90 * 2 + 1) * 2, (90 + 1) * 2));
}

#[test]
fn rout_implies_retreat() {
    let scene = generate_scene();
    let mut units = generate_all_units(&scene);

    units[0].change_statistic_flat(UnitStatistic::MRL, 850, false);
    assert!(units[0].is_rout());
    assert!(units[0].is_retreat());
    units[1].change_statistic_flat(UnitStatistic::MRL, 700, false);
    assert!(!units[1].is_rout());
    assert!(units[1].is_retreat());
}

#[test]
fn flat_change_undone() {
    let scene = generate_scene();
    let mut units = generate_all_units(&scene);

    units[0].change_statistic_flat(UnitStatistic::ATK, 30, true);
    units[0].change_statistic_flat(UnitStatistic::ATK, 30, false);
    assert_eq!(units[0].get_statistic(UnitStatistic::ATK).0, 20);
    // A change cut off at the maximum is not undone
    units[0].change_statistic_flat(UnitStatistic::MRL, 30, true);
    units[0].change_statistic_flat(UnitStatistic::MRL, 30, false);
    assert_eq!(units[0].get_statistic(UnitStatistic::MRL).0, 970);
}

#[test]
fn percentage_whole() {
    let scene = generate_scene();
    let mut units = generate_all_units(&scene);

    units[0].change_statistic_percentage(UnitStatistic::DEF, 100, false);
    assert_eq!(units[0].get_statistic(UnitStatistic::DEF).0, 0);
    units[0].change_statistic_percentage(UnitStatistic::DEF, 0, true);
    assert_eq!(units[0].get_statistic(UnitStatistic::DEF).0, 0);
}

#[test]
fn end_turn_recovers_morale() {
    let scene = generate_scene();
    let mut units = generate_all_units(&scene);

    units[0].change_statistic_flat(UnitStatistic::MRL, 100, false);
    units[0].end_turn(&[], None);
    assert_eq!(units[0].get_statistic(UnitStatistic::MRL).0, 900 + RECOVER_MRL);
}

#[test]
fn faction_members_and_followers() {
    let scene = generate_scene();
    let units = generate_all_units(&scene);
    let faction_0: Faction = scene.get_faction_builder(&0).build(&units);
    let faction_1: Faction = FactionBuilder::new(1, vec![]).build(&units);

    assert!(faction_0.is_member(&0));
    assert!(faction_0.is_member(&1));
    assert!(faction_0.is_member(&3));
    assert!(!faction_0.is_member(&2));
    assert!(faction_1.is_member(&2));
    assert!(faction_0.is_ally(&0));
    assert!(faction_0.is_ally(&2));
    assert!(!faction_0.is_ally(&1));
    // A leader follows itself; followers without an initialised leader follow no one
    let followers = faction_0.get_followers(&0);
    assert_eq!(followers, vec![0]);
}

#[test]
fn faction_add_remove_follower() {
    let scene = generate_scene();
    let units = generate_all_units(&scene);
    let mut faction_0: Faction = scene.get_faction_builder(&0).build(&units);

    assert!(faction_0.add_follower(1, 0));
    assert!(!faction_0.add_follower(1, 0));
    assert!(!faction_0.add_follower(3, usize::MAX));
    let mut followers = faction_0.get_followers(&0);
    followers.sort();
    assert_eq!(followers, vec![0, 1]);
    assert!(faction_0.remove_follower(&1));
    assert!(!faction_0.remove_follower(&1));
    assert_eq!(faction_0.get_followers(&0), vec![0]);
}

#[test]
fn handler_deregister_ends_subscriptions() {
    let mut handler: Handler<Echo> = Handler::new();

    assert_eq!(handler.register(Rc::new(Echo)), 0);
    assert_eq!(handler.register(Rc::new(Echo)), 1);
    assert!(handler.subscribe(0, 0));
    assert!(handler.subscribe(1, 0));
    assert_eq!(handler.notify(Message::TestAdd).len(), 2);
    assert!(handler.notify(Message::TestSubtract).is_empty());
    assert!(handler.deregister(&1));
    assert!(!handler.deregister(&1));
    assert_eq!(handler.get_message_observers().get_first(&0).unwrap(), vec![0]);
    let responses = handler.notify(Message::TestAdd);
    assert!(matches!(Handler::<Echo>::reduce_responses(&responses), Response::TestAdd(7)));
}

#[test]
fn response_equality_by_kind() {
    assert_eq!(Response::TestAdd(1), Response::TestAdd(2));
    assert_ne!(Response::TestAdd(1), Response::TestSubtract(1));
    assert_eq!(Message::TestSubtract.discriminant(), 1);
    assert_eq!(Response::TestSubtract(3).discriminant(), 1);
}

#[test]
fn grid_step_and_back() {
    let scene = generate_scene();
    let grid = Grid::new(Rc::clone(&scene));

    let right = grid.try_connect(&(0, 0), Direction::Right).unwrap();
    assert_eq!(grid.try_connect(&right, Direction::Left).unwrap(), (0, 0));
    let down = grid.try_connect(&(0, 1), Direction::Down).unwrap();
    assert_eq!(grid.try_connect(&down, Direction::Up).unwrap(), (0, 1));
}

#[test]
fn grid_place_then_remove() {
    let scene = generate_scene();
    let mut grid = Grid::new(Rc::clone(&scene));

    assert!(grid.place_unit(0, (0, 1)).is_some());
    assert!(!grid.is_placeable(&(0, 1)));
    grid.remove_unit(&0);
    assert!(grid.is_placeable(&(0, 1)));
    assert!(grid.get_location_unit(&(0, 1)).is_none());
}

#[test]
fn error_variants() {
    let error = DanubiaError::FailedAddFollower(1, 0);

    assert!(matches!(error, DanubiaError::FailedAddFollower(1, 0)));
    assert!(matches!(DanubiaError::InvalidLeaderID(3), DanubiaError::InvalidLeaderID(3)));
}

#[test]
fn modifier_added_removed() {
    let scene = generate_scene();
    let mut units = generate_all_units(&scene);
    let statistics = [
        UnitStatistic::MRL,
        UnitStatistic::HLT,
        UnitStatistic::SPL,
        UnitStatistic::ATK,
        UnitStatistic::DEF,
        UnitStatistic::MAG,
        UnitStatistic::MOV,
        UnitStatistic::ORG,
    ];
    let before: Vec<(u16, u16)> = statistics.iter().map(|s| units[0].get_statistic(*s)).collect();

    assert!(units[0].add_appliable(AppliableBox::Modifier(*scene.get_modifier(&7))));
    assert_eq!(units[0].get_statistic(UnitStatistic::DEF).0, 18);
    assert!(units[0].remove_modifier(&7));
    let after: Vec<(u16, u16)> = statistics.iter().map(|s| units[0].get_statistic(*s)).collect();
    assert_eq!(before, after);
    assert!(units[0].get_modifiers().is_empty());
}

#[test]
fn grid_nearest_placeable_is_nearest() {
    let scene = generate_scene();
    let mut grid = Grid::new(Rc::clone(&scene));

    grid.place_unit(0, (0, 0));
    grid.place_unit(1, (0, 1));
    grid.place_unit(3, (1, 0));
    // (0, 2) and (1, 1) lie two steps away; the search reaches (0, 2) first
    assert_eq!(grid.find_nearest_placeable(&(0, 0)), (0, 2));
}

#[test]
fn gather_responses_keeps_given_answers() {
    let answers = vec![Some(Response::TestAdd(1)), None, Some(Response::TestSubtract(2))];
    let responses = Handler::<Echo>::gather_responses(answers);

    assert_eq!(responses.len(), 2);
    assert!(matches!(responses[0], Response::TestAdd(1)));
    assert!(matches!(responses[1], Response::TestSubtract(2)));
}
