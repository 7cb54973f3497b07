use sac_analysis::game::{Class, Player, PlayerState, Team, UserInfo, INFINITY_KEY};
use sac_analysis::players::{
    find_medic, find_on_team, find_soldiers, get_min_dist_key, get_min_dist_name, get_min_dist_player, get_name,
    get_user_id, get_without, is_alive,
};

fn key(distance: f32) -> u32 {
    distance.to_bits()
}

fn info(name: &str, user_id: u16) -> UserInfo {
    UserInfo {
        classes: [0; 10],
        name: name.to_string(),
        user_id,
        steam_id: String::new(),
        entity_id: 0,
        team: Team::Other,
    }
}

fn player(slot: usize, team: Team, class: Class, state: PlayerState, keys: Vec<u32>) -> Player {
    Player {
        entity: 100 + slot as u32,
        class,
        team,
        state,
        info: Some(info(&format!("player{}", slot), slot as u16)),
        slot,
        distance_keys: keys,
    }
}

#[test]
fn name_of_player_with_user() {
    let p = player(3, Team::Red, Class::Scout, PlayerState::Alive, vec![]);
    assert_eq!(get_name(&p), "player3");
}

#[test]
fn name_of_player_without_user_is_unknown() {
    let mut p = player(0, Team::Red, Class::Scout, PlayerState::Alive, vec![]);
    p.info = None;
    assert_eq!(get_name(&p), "Unknown");
}

#[test]
fn user_id_of_player() {
    let p = player(7, Team::Blue, Class::Medic, PlayerState::Alive, vec![]);
    assert_eq!(get_user_id(&p), 7);
}

#[test]
fn only_alive_players_are_alive() {
    assert!(is_alive(&player(0, Team::Red, Class::Scout, PlayerState::Alive, vec![])));
    assert!(!is_alive(&player(0, Team::Red, Class::Scout, PlayerState::Dying, vec![])));
    assert!(!is_alive(&player(0, Team::Red, Class::Scout, PlayerState::Death, vec![])));
    assert!(!is_alive(&player(0, Team::Red, Class::Scout, PlayerState::Respawnable, vec![])));
}

#[test]
fn team_members_keep_their_order() {
    let a = player(0, Team::Red, Class::Scout, PlayerState::Alive, vec![]);
    let b = player(1, Team::Blue, Class::Scout, PlayerState::Alive, vec![]);
    let c = player(2, Team::Red, Class::Medic, PlayerState::Death, vec![]);
    let d = player(3, Team::Spectator, Class::Other, PlayerState::Alive, vec![]);
    let red = find_on_team(vec![&a, &b, &c, &d], Team::Red, 1);
    assert_eq!(red.iter().map(|p| p.slot).collect::<Vec<_>>(), vec![0, 2]);
    let blue = find_soldiers(vec![&a, &b, &c, &d], Team::Blue);
    assert_eq!(blue.iter().map(|p| p.slot).collect::<Vec<_>>(), vec![1]);
    assert!(find_on_team(vec![&a, &b], Team::Other, 4).is_empty());
}

#[test]
fn first_medic_of_team_is_found() {
    let a = player(0, Team::Blue, Class::Medic, PlayerState::Alive, vec![]);
    let b = player(1, Team::Red, Class::Medic, PlayerState::Death, vec![]);
    let c = player(2, Team::Red, Class::Medic, PlayerState::Alive, vec![]);
    assert_eq!(find_medic(vec![&a, &b, &c], Team::Red).slot, 1);
    assert_eq!(find_medic(vec![&a, &b, &c], Team::Blue).slot, 0);
}

#[test]
fn without_drops_the_player_and_the_dead() {
    let a = player(0, Team::Red, Class::Scout, PlayerState::Alive, vec![]);
    let b = player(1, Team::Red, Class::Soldier, PlayerState::Alive, vec![]);
    let c = player(2, Team::Red, Class::Medic, PlayerState::Dying, vec![]);
    let d = player(3, Team::Red, Class::Demoman, PlayerState::Alive, vec![]);
    let list = vec![&a, &b, &c, &d];
    let rest = get_without(&list, &b);
    assert_eq!(rest.iter().map(|p| p.slot).collect::<Vec<_>>(), vec![0, 3]);
    assert!(rest.iter().all(|p| p.entity != b.entity));
}

#[test]
fn nearest_player_is_the_first_of_the_nearest() {
    let me = player(0, Team::Red, Class::Soldier, PlayerState::Alive, vec![
        key(0.0),
        key(300.0),
        key(120.5),
        key(120.5),
        key(900.0),
    ]);
    let a = player(1, Team::Red, Class::Scout, PlayerState::Alive, vec![]);
    let b = player(2, Team::Red, Class::Scout, PlayerState::Alive, vec![]);
    let c = player(3, Team::Red, Class::Scout, PlayerState::Alive, vec![]);
    let d = player(4, Team::Red, Class::Scout, PlayerState::Alive, vec![]);
    let others = vec![&a, &b, &c, &d];
    assert_eq!(get_min_dist_player(&me, &others).unwrap().slot, 2);
    assert_eq!(get_min_dist_name(&me, &others), "player2");
}

#[test]
fn nearest_of_nobody_is_none() {
    let me = player(0, Team::Red, Class::Soldier, PlayerState::Alive, vec![key(0.0)]);
    let others: Vec<&Player> = vec![];
    assert!(get_min_dist_player(&me, &others).is_none());
}

#[test]
fn nearest_of_players_at_infinity_is_the_first() {
    let me = player(0, Team::Red, Class::Soldier, PlayerState::Alive, vec![
        key(0.0),
        INFINITY_KEY,
        key(f32::INFINITY),
    ]);
    let a = player(1, Team::Red, Class::Scout, PlayerState::Alive, vec![]);
    let b = player(2, Team::Red, Class::Scout, PlayerState::Alive, vec![]);
    let others = vec![&b, &a];
    assert_eq!(get_min_dist_player(&me, &others).unwrap().slot, 2);
    assert_eq!(get_min_dist_name(&me, &others), "player2");
}

#[test]
fn infinity_key_is_the_key_of_an_infinite_distance() {
    assert_eq!(INFINITY_KEY, key(f32::INFINITY));
}

#[test]
fn without_keeps_other_players_that_share_the_entity() {
    let a = player(0, Team::Red, Class::Scout, PlayerState::Alive, vec![]);
    let mut b = player(1, Team::Red, Class::Scout, PlayerState::Alive, vec![]);
    let mut d = player(2, Team::Red, Class::Scout, PlayerState::Death, vec![]);
    b.entity = a.entity;
    d.entity = a.entity;
    let list = vec![&a, &d, &b, &a];
    let rest = get_without(&list, &a);
    assert_eq!(rest.iter().map(|p| p.slot).collect::<Vec<_>>(), vec![1]);
}

#[test]
fn least_key_is_the_key_of_the_nearest() {
    let me = player(0, Team::Red, Class::Soldier, PlayerState::Alive, vec![
        key(0.0),
        key(300.0),
        key(120.5),
        key(700.0),
    ]);
    let a = player(1, Team::Red, Class::Scout, PlayerState::Alive, vec![]);
    let b = player(2, Team::Red, Class::Scout, PlayerState::Alive, vec![]);
    let c = player(3, Team::Red, Class::Scout, PlayerState::Alive, vec![]);
    let others = vec![&a, &b, &c];
    let nearest = get_min_dist_player(&me, &others).unwrap();
    assert_eq!(get_min_dist_key(&me, &others), key(120.5));
    assert_eq!(get_min_dist_key(&me, &others), me.distance_keys[nearest.slot]);
    let nobody: Vec<&Player> = vec![];
    assert_eq!(get_min_dist_key(&me, &nobody), INFINITY_KEY);
}
