use sac_analysis::capture::{capture_effect, CaptureEffect};
use sac_analysis::game::{Class, ControlPoint, GameEvent, GameState, Player, PlayerState, Team, UserInfo};
use sac_analysis::parse_sac::{find_sac_start, find_team_on_last, sac_found, sacs_checkable, ParsedDemo, SAC_DISTANCE_KEY, SAC_REPEAT_TICKS};
use tf_demo_parser::demo::header::Header;

fn header() -> Header {
    Header {
        demo_type: "HL2DEMO".to_string(),
        version: 3,
        protocol: 24,
        server: "server".to_string(),
        nick: "stv".to_string(),
        map: "cp_process_final".to_string(),
        game: "tf".to_string(),
        duration: 1800.0,
        ticks: 120000,
        frames: 60000,
        signon: 0,
    }
}

fn key(distance: f32) -> u32 {
    distance.to_bits()
}

fn info(name: &str) -> UserInfo {
    UserInfo {
        classes: [0; 10],
        name: name.to_string(),
        user_id: 1,
        steam_id: String::new(),
        entity_id: 0,
        team: Team::Other,
    }
}

const SOLDIER: usize = 5;
const MEDIC: usize = 0;

/// Red: a medic in slot 0 and four more players; blue: a soldier in slot 5
/// and four more players. The soldier stands 500 units from the medic and
/// 600 from its teammates; everything else is 2000 units apart.
fn players(medic_state: PlayerState) -> Vec<Player> {
    let roles = [
        (Team::Red, Class::Medic),
        (Team::Red, Class::Scout),
        (Team::Red, Class::Soldier),
        (Team::Red, Class::Demoman),
        (Team::Red, Class::Heavy),
        (Team::Blue, Class::Soldier),
        (Team::Blue, Class::Scout),
        (Team::Blue, Class::Soldier),
        (Team::Blue, Class::Medic),
        (Team::Blue, Class::Demoman),
    ];
    let n = roles.len();
    roles
        .iter()
        .enumerate()
        .map(|(slot, (team, class))| {
            let keys = (0..n)
                .map(|other| {
                    if other == slot {
                        key(0.0)
                    } else if slot == SOLDIER && other == MEDIC {
                        key(500.0)
                    } else if slot == SOLDIER && roles[other].0 == Team::Blue {
                        key(600.0)
                    } else {
                        key(2000.0)
                    }
                })
                .collect();
            Player {
                entity: 100 + slot as u32,
                class: *class,
                team: *team,
                state: if slot == MEDIC { medic_state } else { PlayerState::Alive },
                info: Some(info(&format!("p{}", slot))),
                slot,
                distance_keys: keys,
            }
        })
        .collect()
}

fn captured(point: ControlPoint, team: Team) -> GameEvent {
    GameEvent::PointCaptured { cp: point.index(), team: team.code() }
}

fn state(tick: u32, events: Vec<(u32, GameEvent)>, medic_state: PlayerState) -> GameState {
    GameState { players: players(medic_state), has_world: true, tick, events }
}

#[test]
fn new_demo_has_found_nothing() {
    let demo = ParsedDemo::new(header());
    assert_eq!(demo.id, "default");
    assert_eq!(demo.winner, Team::Spectator);
    assert_eq!(demo.last_tick, 0);
    assert_eq!(demo.last_tick_with_sac, (0, 0));
    assert!(demo.player_info.is_empty());
    assert!(demo.red_sac_ticks.is_empty() && demo.blue_sac_ticks.is_empty());
    assert!(demo.red_on_last_ticks.is_empty() && demo.blue_off_last_ticks.is_empty());
    assert_eq!(demo.header, header());
}

#[test]
fn sac_distance_key_is_the_key_of_the_sac_distance() {
    assert_eq!(SAC_DISTANCE_KEY, key(1018.5));
    assert_eq!(SAC_REPEAT_TICKS, 66);
}

#[test]
fn captures_tell_who_is_on_last() {
    let effect = |point, team| capture_effect(&captured(point, team));
    assert_eq!(effect(ControlPoint::BlueSecond, Team::Red), CaptureEffect::BlueOnLast);
    assert_eq!(effect(ControlPoint::BlueSecond, Team::Blue), CaptureEffect::BlueOffLast);
    assert_eq!(effect(ControlPoint::RedSecond, Team::Blue), CaptureEffect::RedOnLast);
    assert_eq!(effect(ControlPoint::RedSecond, Team::Red), CaptureEffect::RedOffLast);
    assert_eq!(effect(ControlPoint::RedLast, Team::Blue), CaptureEffect::LastCapped);
    assert_eq!(effect(ControlPoint::BlueLast, Team::Blue), CaptureEffect::LastCapped);
    assert_eq!(effect(ControlPoint::Middle, Team::Red), CaptureEffect::Unrelated);
    assert_eq!(capture_effect(&GameEvent::Unrelated), CaptureEffect::Unrelated);
    assert_eq!(ControlPoint::BlueSecond.index(), 1);
    assert_eq!(ControlPoint::RedSecond.index(), 3);
    assert_eq!(Team::Red.code(), 2);
    assert_eq!(Team::Blue.code(), 3);
}

#[test]
fn sac_is_noted_once_then_taken_for_the_same() {
    let players = players(PlayerState::Alive);
    let blue: Vec<&Player> = players.iter().filter(|p| p.team == Team::Blue).collect();
    let red: Vec<&Player> = players.iter().filter(|p| p.team == Team::Red).collect();
    let soldiers = vec![&players[7], &players[SOLDIER]];
    let mut demo = ParsedDemo::new(header());

    let start = find_sac_start(soldiers.clone(), &players[MEDIC], blue.clone(), red.clone(), 100, &mut demo);
    assert_eq!(start, 100);
    assert_eq!(demo.blue_sac_ticks, vec![(105, 100)]);
    assert!(demo.red_sac_ticks.is_empty());
    assert_eq!(demo.last_tick_with_sac, (105, 100));

    let again = find_sac_start(soldiers.clone(), &players[MEDIC], blue.clone(), red.clone(), 130, &mut demo);
    assert_eq!(again, 0);
    assert_eq!(demo.blue_sac_ticks, vec![(105, 100)]);
    assert_eq!(demo.last_tick_with_sac, (105, 130));

    let later = find_sac_start(soldiers, &players[MEDIC], blue, red, 196, &mut demo);
    assert_eq!(later, 196);
    assert_eq!(demo.blue_sac_ticks, vec![(105, 100), (105, 196)]);
}

#[test]
fn no_sac_without_enough_players_alive() {
    let mut players = players(PlayerState::Alive);
    players[9].state = PlayerState::Death;
    let blue: Vec<&Player> = players.iter().filter(|p| p.team == Team::Blue).collect();
    let red: Vec<&Player> = players.iter().filter(|p| p.team == Team::Red).collect();
    let mut demo = ParsedDemo::new(header());
    let start = find_sac_start(vec![&players[SOLDIER]], &players[MEDIC], blue, red, 100, &mut demo);
    assert_eq!(start, 0);
    assert_eq!(demo.last_tick_with_sac, (0, 0));
    assert!(demo.blue_sac_ticks.is_empty());
}

#[test]
fn no_sac_when_a_teammate_is_nearer() {
    let mut players = players(PlayerState::Alive);
    players[SOLDIER].distance_keys[6] = key(499.0);
    let blue: Vec<&Player> = players.iter().filter(|p| p.team == Team::Blue).collect();
    let red: Vec<&Player> = players.iter().filter(|p| p.team == Team::Red).collect();
    let mut demo = ParsedDemo::new(header());
    assert_eq!(find_sac_start(vec![&players[SOLDIER]], &players[MEDIC], blue, red, 100, &mut demo), 0);
}

#[test]
fn no_sac_beyond_the_sac_distance() {
    let mut players = players(PlayerState::Alive);
    players[SOLDIER].distance_keys[MEDIC] = key(1018.5);
    for other in 6..10 {
        players[SOLDIER].distance_keys[other] = key(3000.0);
    }
    let blue: Vec<&Player> = players.iter().filter(|p| p.team == Team::Blue).collect();
    let red: Vec<&Player> = players.iter().filter(|p| p.team == Team::Red).collect();
    let mut demo = ParsedDemo::new(header());
    assert_eq!(find_sac_start(vec![&players[SOLDIER]], &players[MEDIC], blue, red, 100, &mut demo), 0);
}

#[test]
fn push_notes_last_and_one_sac() {
    let mut demo = ParsedDemo::new(header());
    demo.last_tick = 98;
    let game = state(100, vec![(100, captured(ControlPoint::RedSecond, Team::Blue))], PlayerState::Alive);
    demo.push_state(&game);
    assert_eq!(demo.last_tick, 100);
    // one mark and one user info pass for each of the two ticks
    assert_eq!(demo.red_on_last_ticks, vec![100, 100]);
    assert!(demo.blue_on_last_ticks.is_empty());
    assert_eq!(demo.blue_sac_ticks, vec![(105, 100)]);
    assert!(demo.red_sac_ticks.is_empty());
    assert_eq!(demo.last_tick_with_sac, (105, 100));
    assert_eq!(demo.player_info.len(), 10);
    assert_eq!(demo.player_info[3].name, "p3");
}

#[test]
fn pushing_the_same_state_twice_changes_nothing() {
    let mut demo = ParsedDemo::new(header());
    demo.last_tick = 90;
    let game = state(100, vec![(100, captured(ControlPoint::RedSecond, Team::Blue))], PlayerState::Alive);
    demo.push_state(&game);
    let red_on = demo.red_on_last_ticks.clone();
    let sacs = demo.blue_sac_ticks.clone();
    let infos = demo.player_info.len();
    demo.push_state(&game);
    assert_eq!(demo.red_on_last_ticks, red_on);
    assert_eq!(demo.blue_sac_ticks, sacs);
    assert_eq!(demo.player_info.len(), infos);
    assert_eq!(demo.last_tick, 100);
}

#[test]
fn push_without_world_changes_nothing() {
    let mut demo = ParsedDemo::new(header());
    let mut game = state(100, vec![(100, captured(ControlPoint::RedSecond, Team::Blue))], PlayerState::Alive);
    game.has_world = false;
    demo.push_state(&game);
    assert_eq!(demo.last_tick, 0);
    assert!(demo.red_on_last_ticks.is_empty());
    assert!(demo.player_info.is_empty());
}

#[test]
fn no_sac_on_a_dead_medic() {
    let mut demo = ParsedDemo::new(header());
    demo.last_tick = 99;
    let game = state(100, vec![(100, captured(ControlPoint::RedSecond, Team::Blue))], PlayerState::Death);
    demo.push_state(&game);
    assert!(demo.blue_sac_ticks.is_empty());
    assert_eq!(demo.last_tick_with_sac, (0, 0));
}

#[test]
fn marks_come_only_at_their_tick() {
    let mut demo = ParsedDemo::new(header());
    demo.last_tick = 199;
    let game = state(
        200,
        vec![
            (150, captured(ControlPoint::BlueSecond, Team::Red)),
            (200, captured(ControlPoint::BlueSecond, Team::Blue)),
            (200, captured(ControlPoint::RedSecond, Team::Red)),
            (200, GameEvent::Unrelated),
        ],
        PlayerState::Alive,
    );
    demo.push_state(&game);
    assert!(demo.blue_on_last_ticks.is_empty());
    assert_eq!(demo.blue_off_last_ticks, vec![200]);
    assert_eq!(demo.red_off_last_ticks, vec![200]);
    assert!(demo.red_on_last_ticks.is_empty());
    // nobody is on last, so nobody is checked for a sac
    assert!(demo.blue_sac_ticks.is_empty() && demo.red_sac_ticks.is_empty());
}

#[test]
fn fallen_last_ends_the_hold() {
    let mut demo = ParsedDemo::new(header());
    demo.last_tick = 299;
    let game = state(
        300,
        vec![
            (250, captured(ControlPoint::RedSecond, Team::Blue)),
            (300, captured(ControlPoint::RedLast, Team::Blue)),
        ],
        PlayerState::Alive,
    );
    demo.push_state(&game);
    assert!(demo.red_on_last_ticks.is_empty());
    assert!(demo.blue_sac_ticks.is_empty());
}

#[test]
fn user_infos_fill_from_the_end_of_the_list() {
    let mut demo = ParsedDemo::new(header());
    demo.last_tick = 8;
    let mut game = state(10, vec![], PlayerState::Alive);
    game.players.truncate(3);
    for p in game.players.iter_mut() {
        p.distance_keys.truncate(3);
    }
    game.players[1].info = None;
    demo.push_state(&game);
    let names: Vec<&str> = demo.player_info.iter().map(|i| i.name.as_str()).collect();
    assert_eq!(names, vec!["p0", "p2", "p2"]);
}

#[test]
fn finish_changes_nothing() {
    let mut demo = ParsedDemo::new(header());
    demo.last_tick = 98;
    let game = state(100, vec![(100, captured(ControlPoint::RedSecond, Team::Blue))], PlayerState::Alive);
    demo.push_state(&game);
    let before = (demo.last_tick, demo.blue_sac_ticks.clone(), demo.red_on_last_ticks.clone());
    demo.finish(&game);
    assert_eq!((demo.last_tick, demo.blue_sac_ticks.clone(), demo.red_on_last_ticks.clone()), before);
}

#[test]
fn team_on_last_follows_the_latest_capture() {
    assert_eq!(find_team_on_last(&vec![]), Team::Other);
    let events = vec![
        (10, captured(ControlPoint::RedSecond, Team::Blue)),
        (20, GameEvent::Unrelated),
        (30, captured(ControlPoint::Middle, Team::Red)),
    ];
    assert_eq!(find_team_on_last(&events), Team::Red);
    let mut more = events.clone();
    more.push((40, captured(ControlPoint::BlueSecond, Team::Red)));
    assert_eq!(find_team_on_last(&more), Team::Blue);
    more.push((50, captured(ControlPoint::BlueLast, Team::Red)));
    assert_eq!(find_team_on_last(&more), Team::Other);
}

#[test]
fn sacs_are_checkable_only_with_a_medic_on_last() {
    let on_red_last = vec![(10, captured(ControlPoint::RedSecond, Team::Blue))];
    let mut game = state(100, on_red_last.clone(), PlayerState::Alive);
    assert!(sacs_checkable(&game));
    game.players[MEDIC].class = Class::Scout;
    assert!(!sacs_checkable(&game));
    game.events = vec![];
    assert!(sacs_checkable(&game));
}

#[test]
fn sacs_seen_in_a_row_are_noted_once() {
    let mut demo = ParsedDemo::new(header());
    demo.last_tick = 99;
    let on_red_last = vec![(10, captured(ControlPoint::RedSecond, Team::Blue))];
    for tick in [100, 130, 190, 250] {
        demo.push_state(&state(tick, on_red_last.clone(), PlayerState::Alive));
    }
    // seen at 100, then within 66 ticks of the last sighting each time
    assert_eq!(demo.blue_sac_ticks, vec![(105, 100)]);
    assert_eq!(demo.last_tick_with_sac, (105, 250));
    demo.push_state(&state(316, on_red_last.clone(), PlayerState::Alive));
    assert_eq!(demo.blue_sac_ticks, vec![(105, 100), (105, 316)]);
    assert!(demo.blue_sac_ticks[1].1 >= demo.blue_sac_ticks[0].1 + 66);
}

#[test]
fn next_tick_push_marks_captures_once() {
    let mut demo = ParsedDemo::new(header());
    demo.last_tick = 99;
    let game = state(
        100,
        vec![
            (100, captured(ControlPoint::RedSecond, Team::Blue)),
            (100, captured(ControlPoint::BlueSecond, Team::Blue)),
        ],
        PlayerState::Alive,
    );
    demo.push_state(&game);
    assert_eq!(demo.red_on_last_ticks, vec![100]);
    assert_eq!(demo.blue_off_last_ticks, vec![100]);
    assert!(demo.red_off_last_ticks.is_empty() && demo.blue_on_last_ticks.is_empty());
}

#[test]
fn sac_found_only_on_the_team_on_last() {
    let on_red_last = vec![(10, captured(ControlPoint::RedSecond, Team::Blue))];
    assert!(sac_found(&state(100, on_red_last.clone(), PlayerState::Alive)));
    assert!(!sac_found(&state(100, on_red_last, PlayerState::Death)));
    assert!(!sac_found(&state(100, vec![], PlayerState::Alive)));
    let on_blue_last = vec![(10, captured(ControlPoint::BlueSecond, Team::Red))];
    assert!(!sac_found(&state(100, on_blue_last, PlayerState::Alive)));
}

#[test]
fn push_ready_wants_no_later_sac_when_one_is_found() {
    let on_red_last = vec![(10, captured(ControlPoint::RedSecond, Team::Blue))];
    let mut demo = ParsedDemo::new(header());
    demo.last_tick = 90;
    demo.last_tick_with_sac = (105, 120);
    assert!(!demo.push_ready(&state(100, on_red_last.clone(), PlayerState::Alive)));
    // without a sac to find, the later sighting does no harm
    assert!(demo.push_ready(&state(100, vec![], PlayerState::Alive)));
    demo.last_tick_with_sac = (105, 80);
    assert!(demo.push_ready(&state(100, on_red_last.clone(), PlayerState::Alive)));
    let mut no_medic = state(100, on_red_last, PlayerState::Alive);
    no_medic.players[MEDIC].class = Class::Scout;
    assert!(!demo.push_ready(&no_medic));
}

#[test]
fn push_with_a_later_sighting_and_no_sac() {
    let mut demo = ParsedDemo::new(header());
    demo.last_tick = 90;
    demo.last_tick_with_sac = (105, 120);
    demo.push_state(&state(100, vec![], PlayerState::Alive));
    assert_eq!(demo.last_tick, 100);
    assert_eq!(demo.last_tick_with_sac, (105, 120));
}
