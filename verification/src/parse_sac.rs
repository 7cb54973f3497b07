//! Finds, tick by tick, when a team is held on its last point and when a
//! soldier of the attacking team runs in to kill the defending medic (a sac).
use vstd::prelude::*;

use tf_demo_parser::demo::header::Header;

use crate::capture::{capture_effect, lemma_team_on_last_is_not_spectator, marks, team_on_last, CaptureEffect};
use crate::game::{distance_key, dist_key, measures, Class, GameEvent, GameState, Player, PlayerState, Team, UserInfo, INFINITY_KEY};
use crate::players::{
    alive_other_than, borrow_all, get_min_dist_key, infos_after, measures_all, of_class, on_team,
    picked_out_by_slot, record_user_infos,
};

pub use crate::players::{
    find_medic, find_on_team, find_soldiers, get_min_dist_name, get_min_dist_player, get_name,
    get_without, is_alive,
};
pub use crate::strat::{Strat, StratResult, StratType};

verus! {

broadcast use vstd::seq_lib::group_seq_properties;

/// The key of the distance within which a soldier counts as sacking a
/// medic: 1018.5 hammer units, 21 player boxes of about 48.5 units.
pub const SAC_DISTANCE_KEY: u32 = 0x447e_a000;

/// A sac seen within this many ticks of the last one seen is taken for the
/// same sac.
pub const SAC_REPEAT_TICKS: u32 = 66;

/// What the analysis of a demo has found so far.
pub struct ParsedDemo {
    pub id: String,
    pub winner: Team,
    pub player_id_list: Vec<Vec<u8>>,
    pub strats: Vec<Strat>,
    /// The last tick that has been analysed.
    pub last_tick: u32,
    pub player_info: Vec<UserInfo>,
    pub header: Header,
    pub red_on_last_ticks: Vec<u32>,
    pub red_off_last_ticks: Vec<u32>,
    pub blue_on_last_ticks: Vec<u32>,
    pub blue_off_last_ticks: Vec<u32>,
    /// The soldier and the tick of the last sac seen.
    pub last_tick_with_sac: (u32, u32),
    /// The soldier and the tick of each sac by red.
    pub red_sac_ticks: Vec<(u32, u32)>,
    /// The soldier and the tick of each sac by blue.
    pub blue_sac_ticks: Vec<(u32, u32)>,
}

/// The parts of a `ParsedDemo` that the analysis of ticks changes.
pub struct SacProgress {
    pub last_tick: u32,
    pub player_info: Seq<UserInfo>,
    pub red_on_last_ticks: Seq<u32>,
    pub red_off_last_ticks: Seq<u32>,
    pub blue_on_last_ticks: Seq<u32>,
    pub blue_off_last_ticks: Seq<u32>,
    pub last_tick_with_sac: (u32, u32),
    pub red_sac_ticks: Seq<(u32, u32)>,
    pub blue_sac_ticks: Seq<(u32, u32)>,
}

impl SacProgress {
    /// No sac was seen after the last tick analysed.
    pub open spec fn wf(self) -> bool {
        self.last_tick_with_sac.1 <= self.last_tick
    }
}

impl View for ParsedDemo {
    type V = SacProgress;

    open spec fn view(&self) -> SacProgress {
        SacProgress {
            last_tick: self.last_tick,
            player_info: self.player_info@,
            red_on_last_ticks: self.red_on_last_ticks@,
            red_off_last_ticks: self.red_off_last_ticks@,
            blue_on_last_ticks: self.blue_on_last_ticks@,
            blue_off_last_ticks: self.blue_off_last_ticks@,
            last_tick_with_sac: self.last_tick_with_sac,
            red_sac_ticks: self.red_sac_ticks@,
            blue_sac_ticks: self.blue_sac_ticks@,
        }
    }
}

impl ParsedDemo {
    /// The parts that the analysis of ticks leaves alone are those of `other`.
    pub open spec fn same_record(&self, other: &ParsedDemo) -> bool {
        &&& self.id@ == other.id@
        &&& self.winner == other.winner
        &&& self.player_id_list@ == other.player_id_list@
        &&& self.strats@ == other.strats@
        &&& self.header == other.header
    }
}

/// `progress` with the marks that `events` leave at `tick` added to the
/// on-last and off-last ticks.
pub open spec fn with_marks(progress: SacProgress, events: Seq<(u32, GameEvent)>, tick: u32) -> SacProgress {
    SacProgress {
        red_on_last_ticks: progress.red_on_last_ticks + marks(events, tick, CaptureEffect::RedOnLast),
        red_off_last_ticks: progress.red_off_last_ticks + marks(events, tick, CaptureEffect::RedOffLast),
        blue_on_last_ticks: progress.blue_on_last_ticks + marks(events, tick, CaptureEffect::BlueOnLast),
        blue_off_last_ticks: progress.blue_off_last_ticks + marks(events, tick, CaptureEffect::BlueOffLast),
        ..progress
    }
}

/// `soldier` is sacking `medic`: it is alive, nearer to the medic than the
/// sac distance and than to any living teammate, and more than three of its
/// teammates and more than four players of the other team are alive.
pub open spec fn sacs<'a>(
    soldier: &'a Player,
    medic: &'a Player,
    soldier_team: Seq<&'a Player>,
    other_team: Seq<&'a Player>,
) -> bool {
    let everyone_else = soldier_team.filter(alive_other_than(soldier));
    let other_team_alive = other_team.filter(alive_other_than(soldier));
    &&& soldier.state == PlayerState::Alive
    &&& distance_key(soldier, medic) < SAC_DISTANCE_KEY
    &&& forall|j: int|
        0 <= j < everyone_else.len() ==> distance_key(soldier, medic) < distance_key(soldier, #[trigger] everyone_else[j])
    &&& everyone_else.len() > 3
    &&& other_team_alive.len() > 4
}

/// Some soldier of `soldiers` is sacking `medic`.
pub open spec fn any_sac<'a>(
    soldiers: Seq<&'a Player>,
    medic: &'a Player,
    soldier_team: Seq<&'a Player>,
    other_team: Seq<&'a Player>,
) -> bool {
    exists|k: int| 0 <= k < soldiers.len() && sacs(#[trigger] soldiers[k], medic, soldier_team, other_team)
}

/// Soldier `k` is the first of `soldiers` that is sacking `medic`.
pub open spec fn first_sac<'a>(
    soldiers: Seq<&'a Player>,
    medic: &'a Player,
    soldier_team: Seq<&'a Player>,
    other_team: Seq<&'a Player>,
    k: int,
) -> bool {
    &&& 0 <= k < soldiers.len()
    &&& sacs(soldiers[k], medic, soldier_team, other_team)
    &&& forall|j: int| 0 <= j < k ==> !sacs(#[trigger] soldiers[j], medic, soldier_team, other_team)
}

/// The first soldier of `soldiers` that is sacking `medic`.
pub open spec fn sacking_soldier<'a>(
    soldiers: Seq<&'a Player>,
    medic: &'a Player,
    soldier_team: Seq<&'a Player>,
    other_team: Seq<&'a Player>,
) -> &'a Player {
    soldiers[choose|k: int| first_sac(soldiers, medic, soldier_team, other_team, k)]
}

/// `progress` after looking at tick `tick` for a sac on `medic`: where a
/// soldier sacks, it and the tick become the last sac seen, and where that
/// comes `SAC_REPEAT_TICKS` or more ticks after the last sac seen before, it
/// is noted as a sac of the soldier's team.
pub open spec fn sac_check<'a>(
    progress: SacProgress,
    soldiers: Seq<&'a Player>,
    medic: &'a Player,
    soldier_team: Seq<&'a Player>,
    other_team: Seq<&'a Player>,
    tick: u32,
) -> SacProgress {
    if any_sac(soldiers, medic, soldier_team, other_team) {
        let soldier = sacking_soldier(soldiers, medic, soldier_team, other_team);
        let seen = (soldier.entity, tick);
        if tick - progress.last_tick_with_sac.1 < SAC_REPEAT_TICKS {
            SacProgress { last_tick_with_sac: seen, ..progress }
        } else if soldier.team == Team::Red {
            SacProgress { last_tick_with_sac: seen, red_sac_ticks: progress.red_sac_ticks.push(seen), ..progress }
        } else if soldier.team == Team::Blue {
            SacProgress { last_tick_with_sac: seen, blue_sac_ticks: progress.blue_sac_ticks.push(seen), ..progress }
        } else {
            SacProgress { last_tick_with_sac: seen, ..progress }
        }
    } else {
        progress
    }
}

/// The tick at which a new sac on `medic` starts: `tick` where one is
/// noted, 0 otherwise.
pub open spec fn sac_start<'a>(
    progress: SacProgress,
    soldiers: Seq<&'a Player>,
    medic: &'a Player,
    soldier_team: Seq<&'a Player>,
    other_team: Seq<&'a Player>,
    tick: u32,
) -> u32 {
    if any_sac(soldiers, medic, soldier_team, other_team) && tick - progress.last_tick_with_sac.1 >= SAC_REPEAT_TICKS {
        tick
    } else {
        0
    }
}

proof fn lemma_first_sac_unique<'a>(
    soldiers: Seq<&'a Player>,
    medic: &'a Player,
    soldier_team: Seq<&'a Player>,
    other_team: Seq<&'a Player>,
    k: int,
)
    requires
        first_sac(soldiers, medic, soldier_team, other_team, k),
    ensures
        any_sac(soldiers, medic, soldier_team, other_team),
        sacking_soldier(soldiers, medic, soldier_team, other_team) == soldiers[k],
{
    assert(sacs(soldiers[k], medic, soldier_team, other_team));
    let c = choose|c: int| first_sac(soldiers, medic, soldier_team, other_team, c);
    if c < k {
        assert(!sacs(soldiers[c], medic, soldier_team, other_team));
    } else if c > k {
        assert(!sacs(soldiers[k], medic, soldier_team, other_team));
    }
}

/// Every soldier knows its distance to `medic` and to each of `soldier_team`.
pub open spec fn sac_measurable<'a>(soldiers: Seq<&'a Player>, medic: &'a Player, soldier_team: Seq<&'a Player>) -> bool {
    forall|k: int|
        0 <= k < soldiers.len() ==> measures(#[trigger] soldiers[k], medic) && measures_all(soldiers[k], soldier_team)
}

/// The slot and the entity of every soldier pick it out in both teams.
pub open spec fn soldiers_picked_out<'a>(
    soldiers: Seq<&'a Player>,
    soldier_team: Seq<&'a Player>,
    other_team: Seq<&'a Player>,
) -> bool {
    forall|k: int|
        0 <= k < soldiers.len() ==> picked_out_by_slot(soldier_team, #[trigger] soldiers[k]) && picked_out_by_slot(
            other_team,
            soldiers[k],
        )
}

/// The position in `soldiers` of the first soldier sacking `medic`, if any.
fn find_first_sac(
    soldiers: &Vec<&Player>,
    medic: &Player,
    soldier_team: &Vec<&Player>,
    other_team: &Vec<&Player>,
) -> (found: Option<usize>)
    requires
        sac_measurable(soldiers@, medic, soldier_team@),
        soldiers_picked_out(soldiers@, soldier_team@, other_team@),
    ensures
        match found {
            Some(k) => first_sac(soldiers@, medic, soldier_team@, other_team@, k as int),
            None => !any_sac(soldiers@, medic, soldier_team@, other_team@),
        },
{
    let mut i: usize = 0;
    while i < soldiers.len()
        invariant
            i <= soldiers@.len(),
            forall|j: int| 0 <= j < i ==> !sacs(#[trigger] soldiers@[j], medic, soldier_team@, other_team@),
            sac_measurable(soldiers@, medic, soldier_team@),
            soldiers_picked_out(soldiers@, soldier_team@, other_team@),
        decreases soldiers@.len() - i,
    {
        let soldier = soldiers[i];
        if is_alive(soldier) {
            assert(picked_out_by_slot(soldier_team@, soldiers@[i as int]));
            assert(picked_out_by_slot(other_team@, soldiers@[i as int]));
            let everyone_else = get_without(soldier_team, soldier);
            let other_team_alive = get_without(other_team, soldier);
            assert(measures(soldier, medic));
            let med_key = dist_key(soldier, medic);
            proof {
                assert forall|j: int| 0 <= j < everyone_else@.len() implies measures(soldier, #[trigger] everyone_else@[j]) by {
                    soldier_team@.lemma_filter_contains_rev(alive_other_than(soldier), everyone_else@[j]);
                }
            }
            let team_key = get_min_dist_key(soldier, &everyone_else);
            if med_key < SAC_DISTANCE_KEY && med_key < team_key && everyone_else.len() > 3 && other_team_alive.len() > 4 {
                return Some(i);
            }
        }
        i = i + 1;
    }
    None
}

/// Looks for the first soldier of `soldiers` that is sacking `medic` at
/// `tick`, notes it in `demo_status`, and returns `tick` where a new sac
/// starts there, 0 otherwise.
pub fn find_sac_start(
    soldiers: Vec<&Player>,
    medic: &Player,
    soldier_team: Vec<&Player>,
    other_team: Vec<&Player>,
    tick: u32,
    demo_status: &mut ParsedDemo,
) -> (start: u32)
    requires
        sac_measurable(soldiers@, medic, soldier_team@),
        soldiers_picked_out(soldiers@, soldier_team@, other_team@),
        any_sac(soldiers@, medic, soldier_team@, other_team@) ==> old(demo_status).last_tick_with_sac.1 <= tick,
    ensures
        final(demo_status)@ == sac_check(old(demo_status)@, soldiers@, medic, soldier_team@, other_team@, tick),
        final(demo_status).same_record(old(demo_status)),
        start == sac_start(old(demo_status)@, soldiers@, medic, soldier_team@, other_team@, tick),
{
    match find_first_sac(&soldiers, medic, &soldier_team, &other_team) {
        Some(k) => {
            proof {
                lemma_first_sac_unique(soldiers@, medic, soldier_team@, other_team@, k as int);
            }
            let soldier = soldiers[k];
            let tick_info = (soldier.entity, tick);
            if tick - demo_status.last_tick_with_sac.1 < SAC_REPEAT_TICKS {
                demo_status.last_tick_with_sac = tick_info;
                return 0;
            }
            demo_status.last_tick_with_sac = tick_info;
            if soldier.team == Team::Red {
                demo_status.red_sac_ticks.push(tick_info);
            } else if soldier.team == Team::Blue {
                demo_status.blue_sac_ticks.push(tick_info);
            }
            tick
        },
        None => 0,
    }
}

/// What a push of `state` onto `progress` needs: where a pass will run, the
/// team held on last has a medic, and where a pass finds a sac, the last sac
/// seen lies no later than the tick of `state`.
pub open spec fn push_allowed(progress: SacProgress, state: GameState) -> bool {
    state.has_world && progress.last_tick < state.tick ==> {
        &&& can_check_sacs(state)
        &&& frame_finds_sac(state) ==> progress.last_tick_with_sac.1 <= state.tick
    }
}

/// A medic of `team` plays in `state`.
pub open spec fn medic_on(state: GameState, team: Team) -> bool {
    exists|i: int|
        0 <= i < state.players@.len() && (#[trigger] state.players@[i]).class == Class::Medic
            && state.players@[i].team == team
}

/// The team held on last in `state` has a medic, so a sac on it can be
/// looked for.
pub open spec fn can_check_sacs(state: GameState) -> bool {
    &&& team_on_last(state.events@) == Team::Red ==> medic_on(state, Team::Red)
    &&& team_on_last(state.events@) == Team::Blue ==> medic_on(state, Team::Blue)
}

/// `progress` after a sac check of the team held on last in `state`, at `tick`.
pub open spec fn frame_sac_check<'a>(progress: SacProgress, state: GameState, tick: u32) -> SacProgress {
    let players = borrow_all::<'a>(state.players@);
    let soldiers = players.filter(of_class(Class::Soldier));
    let medics = players.filter(of_class(Class::Medic));
    let red_team = players.filter(on_team(Team::Red));
    let blue_team = players.filter(on_team(Team::Blue));
    if team_on_last(state.events@) == Team::Red {
        let medic = medics.filter(on_team(Team::Red))[0];
        if medic.state == PlayerState::Alive {
            sac_check(progress, soldiers.filter(on_team(Team::Blue)), medic, blue_team, red_team, tick)
        } else {
            progress
        }
    } else if team_on_last(state.events@) == Team::Blue {
        let medic = medics.filter(on_team(Team::Blue))[0];
        if medic.state == PlayerState::Alive {
            sac_check(progress, soldiers.filter(on_team(Team::Red)), medic, red_team, blue_team, tick)
        } else {
            progress
        }
    } else {
        progress
    }
}

/// `progress` after one pass over `state`: the user infos are recorded, the
/// marks of the tick's captures added, the team on last checked for a sac,
/// and the tick of `state` becomes the last tick analysed.
pub open spec fn sac_frame(progress: SacProgress, state: GameState) -> SacProgress {
    let tick = state.tick;
    let recorded = SacProgress { player_info: infos_after(progress.player_info, state.players@), ..progress };
    let marked = with_marks(recorded, state.events@, tick);
    SacProgress { last_tick: tick, ..frame_sac_check(marked, state, tick) }
}

/// `progress` after `n` passes over `state`.
pub open spec fn sac_frames(progress: SacProgress, state: GameState, n: nat) -> SacProgress
    decreases n,
{
    if n == 0 {
        progress
    } else {
        sac_frame(sac_frames(progress, state, (n - 1) as nat), state)
    }
}

/// `progress` after `state` is pushed: one pass for every tick from the last
/// tick analysed up to the tick of `state`, where the world is known.
pub open spec fn after_push(progress: SacProgress, state: GameState) -> SacProgress {
    if state.has_world && progress.last_tick < state.tick {
        sac_frames(progress, state, (state.tick - progress.last_tick) as nat)
    } else {
        progress
    }
}

/// The team held on its last point after `events`.
pub fn find_team_on_last(events: &Vec<(u32, GameEvent)>) -> (team: Team)
    ensures
        team == team_on_last(events@),
{
    let mut team = Team::Other;
    let mut i: usize = 0;
    while i < events.len()
        invariant
            i <= events@.len(),
            team == team_on_last(events@.take(i as int)),
        decreases events@.len() - i,
    {
        proof {
            assert(events@.take(i + 1).drop_last() == events@.take(i as int));
        }
        match capture_effect(&events[i].1) {
            CaptureEffect::BlueOnLast => team = Team::Blue,
            CaptureEffect::RedOnLast => team = Team::Red,
            CaptureEffect::Unrelated => {},
            _ => team = Team::Other,
        }
        i = i + 1;
    }
    proof {
        assert(events@.take(i as int) == events@);
    }
    team
}

/// Whether the team held on last in `state` has a medic, so that a sac on
/// it can be looked for: what `push_state` needs of a tick it analyses.
pub fn sacs_checkable(state: &GameState) -> (ok: bool)
    ensures
        ok == can_check_sacs(*state),
{
    let team = find_team_on_last(&state.events);
    if team != Team::Red && team != Team::Blue {
        return true;
    }
    let mut i: usize = 0;
    while i < state.players.len()
        invariant
            i <= state.players@.len(),
            team == Team::Red || team == Team::Blue,
            team == team_on_last(state.events@),
            forall|j: int|
                0 <= j < i ==> !((#[trigger] state.players@[j]).class == Class::Medic && state.players@[j].team == team),
        decreases state.players@.len() - i,
    {
        if state.players[i].class == Class::Medic && state.players[i].team == team {
            return true;
        }
        i = i + 1;
    }
    false
}

/// The players of `players`, borrowed, split into red team, blue team,
/// soldiers and medics, each in their order.
fn sort_players<'a>(players: &'a Vec<Player>) -> (lists: (Vec<&'a Player>, Vec<&'a Player>, Vec<&'a Player>, Vec<&'a Player>))
    ensures
        lists.0@ == borrow_all::<'a>(players@).filter(on_team(Team::Red)),
        lists.1@ == borrow_all::<'a>(players@).filter(on_team(Team::Blue)),
        lists.2@ == borrow_all::<'a>(players@).filter(of_class(Class::Soldier)),
        lists.3@ == borrow_all::<'a>(players@).filter(of_class(Class::Medic)),
{
    let ghost all = borrow_all::<'a>(players@);
    let mut red_team: Vec<&'a Player> = Vec::new();
    let mut blue_team: Vec<&'a Player> = Vec::new();
    let mut soldiers: Vec<&'a Player> = Vec::new();
    let mut medics: Vec<&'a Player> = Vec::new();
    let mut index: usize = 0;
    while index < players.len()
        invariant
            index <= players@.len(),
            all == borrow_all::<'a>(players@),
            red_team@ == all.take(index as int).filter(on_team(Team::Red)),
            blue_team@ == all.take(index as int).filter(on_team(Team::Blue)),
            soldiers@ == all.take(index as int).filter(of_class(Class::Soldier)),
            medics@ == all.take(index as int).filter(of_class(Class::Medic)),
        decreases players@.len() - index,
    {
        let player = &players[index];
        proof {
            assert(all.take(index + 1) == all.take(index as int).push(player));
            all.take(index as int).lemma_filter_push(player, on_team(Team::Red));
            all.take(index as int).lemma_filter_push(player, on_team(Team::Blue));
            all.take(index as int).lemma_filter_push(player, of_class(Class::Soldier));
            all.take(index as int).lemma_filter_push(player, of_class(Class::Medic));
        }
        if player.team == Team::Red {
            red_team.push(player);
        } else if player.team == Team::Blue {
            blue_team.push(player);
        }
        if player.class == Class::Soldier {
            soldiers.push(player);
        } else if player.class == Class::Medic {
            medics.push(player);
        }
        index = index + 1;
    }
    proof {
        assert(all.take(index as int) == all);
    }
    (red_team, blue_team, soldiers, medics)
}

/// Every player of `list` is the player in its slot among `players`, and
/// knows its distance to each of them.
pub open spec fn drawn_from<'a>(list: Seq<&'a Player>, players: Seq<Player>) -> bool {
    forall|j: int|
        0 <= j < list.len() ==> {
            &&& (#[trigger] list[j]).slot < players.len()
            &&& *list[j] == players[list[j].slot as int]
            &&& list[j].distance_keys@.len() == players.len()
        }
}

proof fn lemma_all_drawn<'a>(state: GameState)
    requires
        state.wf(),
    ensures
        drawn_from(borrow_all::<'a>(state.players@), state.players@),
{
    assert forall|j: int| 0 <= j < borrow_all::<'a>(state.players@).len() implies {
        &&& (#[trigger] borrow_all::<'a>(state.players@)[j]).slot < state.players@.len()
        &&& *borrow_all::<'a>(state.players@)[j] == state.players@[borrow_all::<'a>(state.players@)[j].slot as int]
        &&& borrow_all::<'a>(state.players@)[j].distance_keys@.len() == state.players@.len()
    } by {
        assert(borrow_all::<'a>(state.players@)[j] == state.players@[j]);
    }
}

proof fn lemma_filter_drawn<'a>(list: Seq<&'a Player>, players: Seq<Player>, pred: spec_fn(&'a Player) -> bool)
    requires
        drawn_from(list, players),
    ensures
        drawn_from(list.filter(pred), players),
{
    assert forall|j: int| 0 <= j < list.filter(pred).len() implies {
        &&& (#[trigger] list.filter(pred)[j]).slot < players.len()
        &&& *list.filter(pred)[j] == players[list.filter(pred)[j].slot as int]
        &&& list.filter(pred)[j].distance_keys@.len() == players.len()
    } by {
        let p = list.filter(pred)[j];
        assert(list.filter(pred).contains(p));
        list.lemma_filter_contains_rev(pred, p);
        let k = choose|k: int| 0 <= k < list.len() && list[k] == p;
        assert(list[k].slot < players.len());
    }
}

/// Soldiers drawn from a tick can be checked for sacs on a medic drawn from
/// the same tick, against teams drawn from it.
proof fn lemma_sac_check_ready<'a>(
    soldiers: Seq<&'a Player>,
    medic: &'a Player,
    team: Seq<&'a Player>,
    other_team: Seq<&'a Player>,
    players: Seq<Player>,
)
    requires
        drawn_from(soldiers, players),
        drawn_from(team, players),
        drawn_from(other_team, players),
        medic.slot < players.len(),
    ensures
        sac_measurable(soldiers, medic, team),
        soldiers_picked_out(soldiers, team, other_team),
{
    assert forall|k: int| 0 <= k < soldiers.len() implies measures(#[trigger] soldiers[k], medic) && measures_all(soldiers[k], team) by {
        assert(soldiers[k].distance_keys@.len() == players.len());
        assert forall|j: int| 0 <= j < team.len() implies measures(soldiers[k], #[trigger] team[j]) by {
            assert(team[j].slot < players.len());
        }
    }
    assert forall|k: int| 0 <= k < soldiers.len() implies picked_out_by_slot(team, #[trigger] soldiers[k])
        && picked_out_by_slot(other_team, soldiers[k]) by {
        let s = soldiers[k];
        assert(*s == players[s.slot as int]);
        assert forall|i: int| 0 <= i < team.len() && (#[trigger] team[i]).slot == s.slot && team[i].entity == s.entity implies team[i] == s by {
            assert(*team[i] == players[team[i].slot as int]);
        }
        assert forall|i: int| 0 <= i < other_team.len() && (#[trigger] other_team[i]).slot == s.slot && other_team[i].entity == s.entity implies other_team[i] == s by {
            assert(*other_team[i] == players[other_team[i].slot as int]);
        }
    }
}

/// A medic of `team` in `state` is found among its medics.
proof fn lemma_medic_listed<'a>(state: GameState, team: Team)
    requires
        medic_on(state, team),
    ensures
        exists|i: int|
            0 <= i < borrow_all::<'a>(state.players@).filter(of_class(Class::Medic)).len()
                && (#[trigger] borrow_all::<'a>(state.players@).filter(of_class(Class::Medic))[i]).team == team,
        borrow_all::<'a>(state.players@).filter(of_class(Class::Medic)).filter(on_team(team)).len() > 0,
{
    let all = borrow_all::<'a>(state.players@);
    let i = choose|i: int|
        0 <= i < state.players@.len() && (#[trigger] state.players@[i]).class == Class::Medic
            && state.players@[i].team == team;
    assert(all[i] == state.players@[i]);
    assert(of_class::<'a>(Class::Medic)(all[i]));
    all.lemma_filter_contains(of_class(Class::Medic), i);
    let medics = all.filter(of_class(Class::Medic));
    let k = choose|k: int| 0 <= k < medics.len() && medics[k] == all[i];
    assert(medics[k].team == team);
    assert(on_team::<'a>(team)(medics[k]));
    medics.lemma_filter_contains(on_team(team), k);
}

/// Whether a pass over `state` finds a soldier sacking the living medic of
/// the team held on last.
pub fn sac_found(state: &GameState) -> (found: bool)
    requires
        state.wf(),
        can_check_sacs(*state),
    ensures
        found == frame_finds_sac(*state),
{
    let team = find_team_on_last(&state.events);
    let ghost n = state.players@;
    proof {
        lemma_all_drawn(*state);
    }
    let (red_team, blue_team, soldiers, medics) = sort_players(&state.players);
    proof {
        lemma_filter_drawn(borrow_all(state.players@), n, on_team(Team::Red));
        lemma_filter_drawn(borrow_all(state.players@), n, on_team(Team::Blue));
        lemma_filter_drawn(borrow_all(state.players@), n, of_class(Class::Soldier));
        lemma_filter_drawn(borrow_all(state.players@), n, of_class(Class::Medic));
        lemma_filter_drawn(soldiers@, n, on_team(Team::Red));
        lemma_filter_drawn(soldiers@, n, on_team(Team::Blue));
        lemma_filter_drawn(medics@, n, on_team(Team::Red));
        lemma_filter_drawn(medics@, n, on_team(Team::Blue));
    }
    if team == Team::Red {
        proof {
            lemma_medic_listed(*state, Team::Red);
        }
        let blue_soldiers = find_soldiers(soldiers, Team::Blue);
        let red_medic = find_medic(medics, Team::Red);
        if !is_alive(red_medic) {
            return false;
        }
        proof {
            lemma_sac_check_ready(blue_soldiers@, red_medic, blue_team@, red_team@, n);
        }
        find_first_sac(&blue_soldiers, red_medic, &blue_team, &red_team).is_some()
    } else if team == Team::Blue {
        proof {
            lemma_medic_listed(*state, Team::Blue);
        }
        let red_soldiers = find_soldiers(soldiers, Team::Red);
        let blue_medic = find_medic(medics, Team::Blue);
        if !is_alive(blue_medic) {
            return false;
        }
        proof {
            lemma_sac_check_ready(red_soldiers@, blue_medic, red_team@, blue_team@, n);
        }
        find_first_sac(&red_soldiers, blue_medic, &red_team, &blue_team).is_some()
    } else {
        false
    }
}

impl ParsedDemo {
    /// Analyses the tick `game_state`: where the world is known, one pass
    /// over it for every tick from the last tick analysed up to its own.
    /// Each pass records the user infos of new players, notes the captures
    /// that came at its tick, and looks for a sac on the medic of the team
    /// held on last.
    pub fn push_state(&mut self, game_state: &GameState)
        requires
            game_state.wf(),
            push_allowed(old(self)@, *game_state),
        ensures
            final(self)@ == after_push(old(self)@, *game_state),
            final(self).same_record(old(self)),
            old(self)@.wf() ==> final(self)@.wf(),
    {
        if game_state.has_world {
            let start = self.last_tick;
            let mut frame = start;
            while frame < game_state.tick
                invariant
                    start == old(self).last_tick,
                    start <= frame,
                    start < game_state.tick ==> frame <= game_state.tick,
                    start >= game_state.tick ==> frame == start,
                    game_state.wf(),
                    start < game_state.tick ==> can_check_sacs(*game_state),
                    self@ == sac_frames(old(self)@, *game_state, (frame - start) as nat),
                    frame > start ==> self.last_tick == game_state.tick,
                    start < game_state.tick && frame_finds_sac(*game_state) ==> self.last_tick_with_sac.1 <= game_state.tick,
                    old(self)@.wf() ==> self@.wf(),
                    self.last_tick <= game_state.tick || frame == start,
                    self.same_record(old(self)),
                decreases game_state.tick - frame,
            {
                let tick = game_state.tick;
                let ghost before = self@;
                proof {
                    lemma_all_drawn(*game_state);
                }
                record_user_infos(&mut self.player_info, &game_state.players);
                let (red_team, blue_team, soldiers, medics) = sort_players(&game_state.players);
                let team_on_last_now = self.update_on_last_frames(game_state, tick);
                let ghost n = game_state.players@;
                proof {
                    lemma_filter_drawn(borrow_all(game_state.players@), n, on_team(Team::Red));
                    lemma_filter_drawn(borrow_all(game_state.players@), n, on_team(Team::Blue));
                    lemma_filter_drawn(borrow_all(game_state.players@), n, of_class(Class::Soldier));
                    lemma_filter_drawn(borrow_all(game_state.players@), n, of_class(Class::Medic));
                    lemma_filter_drawn(soldiers@, n, on_team(Team::Red));
                    lemma_filter_drawn(soldiers@, n, on_team(Team::Blue));
                    lemma_filter_drawn(medics@, n, on_team(Team::Red));
                    lemma_filter_drawn(medics@, n, on_team(Team::Blue));
                }
                if team_on_last_now == Team::Red {
                    proof {
                        lemma_medic_listed(*game_state, Team::Red);
                    }
                    let blue_soldiers = find_soldiers(soldiers, Team::Blue);
                    let red_medic = find_medic(medics, Team::Red);
                    if is_alive(red_medic) {
                        proof {
                            lemma_sac_check_ready(blue_soldiers@, red_medic, blue_team@, red_team@, n);
                        }
                        find_sac_start(blue_soldiers, red_medic, blue_team, red_team, tick, self);
                    }
                } else if team_on_last_now == Team::Blue {
                    proof {
                        lemma_medic_listed(*game_state, Team::Blue);
                    }
                    let red_soldiers = find_soldiers(soldiers, Team::Red);
                    let blue_medic = find_medic(medics, Team::Blue);
                    if is_alive(blue_medic) {
                        proof {
                            lemma_sac_check_ready(red_soldiers@, blue_medic, red_team@, blue_team@, n);
                        }
                        find_sac_start(red_soldiers, blue_medic, red_team, blue_team, tick, self);
                    }
                }
                self.last_tick = tick;
                proof {
                    assert(self@ == sac_frame(before, *game_state));
                }
                frame = frame + 1;
            }
            proof {
                if start < game_state.tick {
                    assert(frame == game_state.tick);
                } else {
                    assert(frame == start);
                    assert(sac_frames(old(self)@, *game_state, 0) == old(self)@);
                }
            }
        }
    }

    /// Whether `state` may be pushed onto this analysis: what `push_state`
    /// needs of it besides a well-formed tick.
    pub fn push_ready(&self, state: &GameState) -> (ready: bool)
        requires
            state.wf(),
        ensures
            ready == push_allowed(self@, *state),
    {
        if !(state.has_world && self.last_tick < state.tick) {
            return true;
        }
        if !sacs_checkable(state) {
            return false;
        }
        !sac_found(state) || self.last_tick_with_sac.1 <= state.tick
    }

    /// An analysis of the demo with header `header` that has seen nothing yet.
    pub fn new(header: Header) -> (demo: Self)
        ensures
            demo@ == (SacProgress {
                last_tick: 0,
                player_info: Seq::empty(),
                red_on_last_ticks: Seq::empty(),
                red_off_last_ticks: Seq::empty(),
                blue_on_last_ticks: Seq::empty(),
                blue_off_last_ticks: Seq::empty(),
                last_tick_with_sac: (0, 0),
                red_sac_ticks: Seq::empty(),
                blue_sac_ticks: Seq::empty(),
            }),
            demo.id@ == "default"@,
            demo.winner == Team::Spectator,
            demo.player_id_list@ == Seq::<Vec<u8>>::empty(),
            demo.strats@ == Seq::<Strat>::empty(),
            demo.header == header,
            demo@.wf(),
            sacs_spaced(demo@),
    {
        ParsedDemo {
            id: "default".to_string(),
            winner: Team::Spectator,
            player_id_list: Vec::new(),
            strats: Vec::new(),
            last_tick: 0,
            player_info: Vec::new(),
            header,
            red_on_last_ticks: Vec::new(),
            blue_on_last_ticks: Vec::new(),
            red_off_last_ticks: Vec::new(),
            blue_off_last_ticks: Vec::new(),
            last_tick_with_sac: (0, 0),
            red_sac_ticks: Vec::with_capacity(30),
            blue_sac_ticks: Vec::with_capacity(30),
        }
    }

    /// Ends the analysis with the final state of the demo; nothing is left
    /// to do there.
    pub fn finish(&mut self, state: &GameState)
        ensures
            *final(self) == *old(self),
    {
    }

    /// Notes the ticks at which the captures of `game_state` at `tick` put a
    /// team on or off its last point, and returns the team held on last
    /// after all its events.
    fn update_on_last_frames(&mut self, game_state: &GameState, tick: u32) -> (team: Team)
        ensures
            team == team_on_last(game_state.events@),
            team != Team::Spectator,
            final(self)@ == with_marks(old(self)@, game_state.events@, tick),
            final(self).same_record(old(self)),
    {
        let ghost events = game_state.events@;
        let mut team_on_last_now = Team::Other;
        let mut i: usize = 0;
        while i < game_state.events.len()
            invariant
                i <= events.len(),
                events == game_state.events@,
                team_on_last_now == team_on_last(events.take(i as int)),
                self@ == with_marks(old(self)@, events.take(i as int), tick),
                self.same_record(old(self)),
            decreases events.len() - i,
        {
            proof {
                assert(events.take(i + 1).drop_last() == events.take(i as int));
            }
            let (event_tick, event) = game_state.events[i];
            match capture_effect(&event) {
                CaptureEffect::BlueOnLast => {
                    if event_tick == tick {
                        self.blue_on_last_ticks.push(tick);
                    }
                    team_on_last_now = Team::Blue;
                },
                CaptureEffect::BlueOffLast => {
                    if event_tick == tick {
                        self.blue_off_last_ticks.push(tick);
                    }
                    team_on_last_now = Team::Other;
                },
                CaptureEffect::RedOnLast => {
                    if event_tick == tick {
                        self.red_on_last_ticks.push(tick);
                    }
                    team_on_last_now = Team::Red;
                },
                CaptureEffect::RedOffLast => {
                    if event_tick == tick {
                        self.red_off_last_ticks.push(tick);
                    }
                    team_on_last_now = Team::Other;
                },
                CaptureEffect::LastCapped => {
                    team_on_last_now = Team::Other;
                },
                CaptureEffect::Unrelated => {},
            }
            i = i + 1;
        }
        proof {
            assert(events.take(i as int) == events);
            lemma_team_on_last_is_not_spectator(events);
        }
        team_on_last_now
    }
}

/// Everything that `earlier` had found is still found in `later`: each of
/// its lists starts with the same list of `earlier`.
pub open spec fn keeps_findings(earlier: SacProgress, later: SacProgress) -> bool {
    &&& earlier.player_info.is_prefix_of(later.player_info)
    &&& earlier.red_on_last_ticks.is_prefix_of(later.red_on_last_ticks)
    &&& earlier.red_off_last_ticks.is_prefix_of(later.red_off_last_ticks)
    &&& earlier.blue_on_last_ticks.is_prefix_of(later.blue_on_last_ticks)
    &&& earlier.blue_off_last_ticks.is_prefix_of(later.blue_off_last_ticks)
    &&& earlier.red_sac_ticks.is_prefix_of(later.red_sac_ticks)
    &&& earlier.blue_sac_ticks.is_prefix_of(later.blue_sac_ticks)
}

proof fn lemma_prefix_trans<A>(a: Seq<A>, b: Seq<A>, c: Seq<A>)
    requires
        a.is_prefix_of(b),
        b.is_prefix_of(c),
    ensures
        a.is_prefix_of(c),
{
    assert forall|i: int| 0 <= i < a.len() implies a[i] == c[i] by {
        assert(a[i] == b.subrange(0, a.len() as int)[i]);
        assert(b[i] == c.subrange(0, b.len() as int)[i]);
    }
    assert(a =~= c.subrange(0, a.len() as int));
}

proof fn lemma_prefix_append<A>(a: Seq<A>, b: Seq<A>)
    ensures
        a.is_prefix_of(a + b),
{
    assert(a =~= (a + b).subrange(0, a.len() as int));
}

proof fn lemma_prefix_refl<A>(a: Seq<A>)
    ensures
        a.is_prefix_of(a),
{
    assert(a =~= a.subrange(0, a.len() as int));
}

proof fn lemma_infos_after_extends(infos: Seq<UserInfo>, players: Seq<Player>)
    ensures
        infos.is_prefix_of(infos_after(infos, players)),
    decreases players.len(),
{
    if players.len() == 0 {
        lemma_prefix_refl(infos);
    } else {
        let before = infos_after(infos, players.drop_last());
        lemma_infos_after_extends(infos, players.drop_last());
        lemma_prefix_refl(before);
        lemma_prefix_append(before, seq![players.last().info.unwrap()]);
        assert(before.push(players.last().info.unwrap()) == before + seq![players.last().info.unwrap()]);
        lemma_prefix_trans(infos, before, infos_after(infos, players));
    }
}

proof fn lemma_keeps_trans(a: SacProgress, b: SacProgress, c: SacProgress)
    requires
        keeps_findings(a, b),
        keeps_findings(b, c),
    ensures
        keeps_findings(a, c),
{
    lemma_prefix_trans(a.player_info, b.player_info, c.player_info);
    lemma_prefix_trans(a.red_on_last_ticks, b.red_on_last_ticks, c.red_on_last_ticks);
    lemma_prefix_trans(a.red_off_last_ticks, b.red_off_last_ticks, c.red_off_last_ticks);
    lemma_prefix_trans(a.blue_on_last_ticks, b.blue_on_last_ticks, c.blue_on_last_ticks);
    lemma_prefix_trans(a.blue_off_last_ticks, b.blue_off_last_ticks, c.blue_off_last_ticks);
    lemma_prefix_trans(a.red_sac_ticks, b.red_sac_ticks, c.red_sac_ticks);
    lemma_prefix_trans(a.blue_sac_ticks, b.blue_sac_ticks, c.blue_sac_ticks);
}

proof fn lemma_frame_keeps(progress: SacProgress, state: GameState)
    ensures
        keeps_findings(progress, sac_frame(progress, state)),
{
    let tick = state.tick;
    let recorded = SacProgress { player_info: infos_after(progress.player_info, state.players@), ..progress };
    let marked = with_marks(recorded, state.events@, tick);
    let checked = frame_sac_check(marked, state, tick);
    lemma_infos_after_extends(progress.player_info, state.players@);
    lemma_prefix_append(progress.red_on_last_ticks, marks(state.events@, tick, CaptureEffect::RedOnLast));
    lemma_prefix_append(progress.red_off_last_ticks, marks(state.events@, tick, CaptureEffect::RedOffLast));
    lemma_prefix_append(progress.blue_on_last_ticks, marks(state.events@, tick, CaptureEffect::BlueOnLast));
    lemma_prefix_append(progress.blue_off_last_ticks, marks(state.events@, tick, CaptureEffect::BlueOffLast));
    lemma_prefix_refl(progress.red_sac_ticks);
    lemma_prefix_refl(progress.blue_sac_ticks);
    assert(keeps_findings(progress, marked));
    lemma_prefix_refl(marked.player_info);
    lemma_prefix_refl(marked.red_on_last_ticks);
    lemma_prefix_refl(marked.red_off_last_ticks);
    lemma_prefix_refl(marked.blue_on_last_ticks);
    lemma_prefix_refl(marked.blue_off_last_ticks);
    assert forall|e: (u32, u32)| marked.red_sac_ticks.is_prefix_of(#[trigger] marked.red_sac_ticks.push(e)) by {
        assert(marked.red_sac_ticks =~= marked.red_sac_ticks.push(e).subrange(0, marked.red_sac_ticks.len() as int));
    }
    assert forall|e: (u32, u32)| marked.blue_sac_ticks.is_prefix_of(#[trigger] marked.blue_sac_ticks.push(e)) by {
        assert(marked.blue_sac_ticks =~= marked.blue_sac_ticks.push(e).subrange(0, marked.blue_sac_ticks.len() as int));
    }
    assert(keeps_findings(marked, checked));
    lemma_keeps_trans(progress, marked, checked);
}

proof fn lemma_frames_keep(progress: SacProgress, state: GameState, n: nat)
    ensures
        keeps_findings(progress, sac_frames(progress, state, n)),
    decreases n,
{
    if n == 0 {
        lemma_prefix_refl(progress.player_info);
        lemma_prefix_refl(progress.red_on_last_ticks);
        lemma_prefix_refl(progress.red_off_last_ticks);
        lemma_prefix_refl(progress.blue_on_last_ticks);
        lemma_prefix_refl(progress.blue_off_last_ticks);
        lemma_prefix_refl(progress.red_sac_ticks);
        lemma_prefix_refl(progress.blue_sac_ticks);
    } else {
        let before = sac_frames(progress, state, (n - 1) as nat);
        lemma_frames_keep(progress, state, (n - 1) as nat);
        lemma_frame_keeps(before, state);
        lemma_keeps_trans(progress, before, sac_frames(progress, state, n));
    }
}

/// Pushing a tick never loses anything found before: every list of the
/// analysis after the push starts with the same list before it.
pub proof fn lemma_push_keeps_findings(progress: SacProgress, state: GameState)
    ensures
        keeps_findings(progress, after_push(progress, state)),
{
    if state.has_world && progress.last_tick < state.tick {
        lemma_frames_keep(progress, state, (state.tick - progress.last_tick) as nat);
    } else {
        lemma_frames_keep(progress, state, 0);
    }
}

/// Pushing the same tick a second time changes nothing.
pub proof fn lemma_push_twice_is_push_once(progress: SacProgress, state: GameState)
    ensures
        after_push(after_push(progress, state), state) == after_push(progress, state),
{
    if state.has_world && progress.last_tick < state.tick {
        let n = (state.tick - progress.last_tick) as nat;
        assert(sac_frames(progress, state, n).last_tick == state.tick);
    }
}

/// The sac check of a pass over `state` finds a soldier sacking the living
/// medic of the team held on last.
pub open spec fn frame_finds_sac<'a>(state: GameState) -> bool {
    let players = borrow_all::<'a>(state.players@);
    let soldiers = players.filter(of_class(Class::Soldier));
    let medics = players.filter(of_class(Class::Medic));
    let red_team = players.filter(on_team(Team::Red));
    let blue_team = players.filter(on_team(Team::Blue));
    if team_on_last(state.events@) == Team::Red {
        let medic = medics.filter(on_team(Team::Red))[0];
        medic.state == PlayerState::Alive && any_sac(soldiers.filter(on_team(Team::Blue)), medic, blue_team, red_team)
    } else if team_on_last(state.events@) == Team::Blue {
        let medic = medics.filter(on_team(Team::Blue))[0];
        medic.state == PlayerState::Alive && any_sac(soldiers.filter(on_team(Team::Red)), medic, red_team, blue_team)
    } else {
        false
    }
}

/// Between `before` and `after` at most one sac was noted: none, or one at
/// `tick`, at least `SAC_REPEAT_TICKS` after the last sac seen in `before`.
pub open spec fn notes_at_most_one_sac(before: SacProgress, after: SacProgress, tick: u32) -> bool {
    ||| after.red_sac_ticks == before.red_sac_ticks && after.blue_sac_ticks == before.blue_sac_ticks
    ||| {
        &&& tick >= before.last_tick_with_sac.1 + SAC_REPEAT_TICKS
        &&& after.blue_sac_ticks == before.blue_sac_ticks
        &&& exists|soldier: u32| after.red_sac_ticks == before.red_sac_ticks.push((soldier, tick))
    }
    ||| {
        &&& tick >= before.last_tick_with_sac.1 + SAC_REPEAT_TICKS
        &&& after.red_sac_ticks == before.red_sac_ticks
        &&& exists|soldier: u32| after.blue_sac_ticks == before.blue_sac_ticks.push((soldier, tick))
    }
}

proof fn lemma_frame_check_sac(progress: SacProgress, state: GameState, tick: u32)
    ensures
        !frame_finds_sac(state) ==> frame_sac_check(progress, state, tick) == progress,
        frame_finds_sac(state) ==> {
            &&& frame_sac_check(progress, state, tick).last_tick_with_sac.1 == tick
            &&& notes_at_most_one_sac(progress, frame_sac_check(progress, state, tick), tick)
            &&& tick - progress.last_tick_with_sac.1 < SAC_REPEAT_TICKS ==> {
                &&& frame_sac_check(progress, state, tick).red_sac_ticks == progress.red_sac_ticks
                &&& frame_sac_check(progress, state, tick).blue_sac_ticks == progress.blue_sac_ticks
            }
        },
{
}

proof fn lemma_frames_note_at_most_one_sac(progress: SacProgress, state: GameState, n: nat)
    requires
        n >= 1,
    ensures
        notes_at_most_one_sac(progress, sac_frames(progress, state, n), state.tick),
        frame_finds_sac(state) ==> sac_frames(progress, state, n).last_tick_with_sac.1 == state.tick,
        !frame_finds_sac(state) ==> {
            &&& sac_frames(progress, state, n).red_sac_ticks == progress.red_sac_ticks
            &&& sac_frames(progress, state, n).blue_sac_ticks == progress.blue_sac_ticks
            &&& sac_frames(progress, state, n).last_tick_with_sac == progress.last_tick_with_sac
        },
    decreases n,
{
    let tick = state.tick;
    let before = sac_frames(progress, state, (n - 1) as nat);
    let recorded = SacProgress { player_info: infos_after(before.player_info, state.players@), ..before };
    let marked = with_marks(recorded, state.events@, tick);
    lemma_frame_check_sac(marked, state, tick);
    if n > 1 {
        lemma_frames_note_at_most_one_sac(progress, state, (n - 1) as nat);
    }
}

/// A push notes at most one sac, at the tick of the state pushed and at
/// least `SAC_REPEAT_TICKS` after the last sac seen before it, however many
/// passes it makes.
pub proof fn lemma_push_notes_at_most_one_sac(progress: SacProgress, state: GameState)
    ensures
        notes_at_most_one_sac(progress, after_push(progress, state), state.tick),
{
    if state.has_world && progress.last_tick < state.tick {
        lemma_frames_note_at_most_one_sac(progress, state, (state.tick - progress.last_tick) as nat);
    }
}

/// The sacs noted for each team lie at least `SAC_REPEAT_TICKS` apart, in
/// the order of their ticks, and none lies after the last sac seen.
pub open spec fn sacs_spaced(progress: SacProgress) -> bool {
    &&& forall|i: int|
        0 <= i < progress.red_sac_ticks.len() - 1 ==> progress.red_sac_ticks[i + 1].1
            >= (#[trigger] progress.red_sac_ticks[i]).1 + SAC_REPEAT_TICKS
    &&& forall|i: int|
        0 <= i < progress.blue_sac_ticks.len() - 1 ==> progress.blue_sac_ticks[i + 1].1
            >= (#[trigger] progress.blue_sac_ticks[i]).1 + SAC_REPEAT_TICKS
    &&& forall|i: int|
        0 <= i < progress.red_sac_ticks.len() ==> (#[trigger] progress.red_sac_ticks[i]).1
            <= progress.last_tick_with_sac.1
    &&& forall|i: int|
        0 <= i < progress.blue_sac_ticks.len() ==> (#[trigger] progress.blue_sac_ticks[i]).1
            <= progress.last_tick_with_sac.1
}

/// However the ticks are pushed, the sacs noted for a team stay at least
/// `SAC_REPEAT_TICKS` apart: a push keeps them so.
pub proof fn lemma_push_keeps_sacs_spaced(progress: SacProgress, state: GameState)
    requires
        state.has_world && progress.last_tick < state.tick && frame_finds_sac(state) ==> progress.last_tick_with_sac.1
            <= state.tick,
        sacs_spaced(progress),
    ensures
        sacs_spaced(after_push(progress, state)),
{
    lemma_push_notes_at_most_one_sac(progress, state);
    let after = after_push(progress, state);
    if state.has_world && progress.last_tick < state.tick {
        let n = (state.tick - progress.last_tick) as nat;
        lemma_frames_note_at_most_one_sac(progress, state, n);
        if frame_finds_sac(state) {
            assert(after.last_tick_with_sac.1 == state.tick);
            assert(progress.last_tick_with_sac.1 <= state.tick);
        } else {
            assert(after.last_tick_with_sac == progress.last_tick_with_sac);
        }
        if after.red_sac_ticks != progress.red_sac_ticks {
            let soldier = choose|soldier: u32| after.red_sac_ticks == progress.red_sac_ticks.push((soldier, state.tick));
            assert(after.red_sac_ticks == progress.red_sac_ticks.push((soldier, state.tick)));
        }
        if after.blue_sac_ticks != progress.blue_sac_ticks {
            let soldier = choose|soldier: u32| after.blue_sac_ticks == progress.blue_sac_ticks.push((soldier, state.tick));
            assert(after.blue_sac_ticks == progress.blue_sac_ticks.push((soldier, state.tick)));
        }
    }
}

/// A push of the tick right after the last one analysed marks the captures
/// of that tick once: each list of on-last and off-last ticks gains the marks
/// of its own kind that the events leave at that tick.
pub proof fn lemma_next_tick_push_marks_once(progress: SacProgress, state: GameState)
    requires
        state.has_world,
        state.tick == progress.last_tick + 1,
    ensures
        after_push(progress, state).red_on_last_ticks == progress.red_on_last_ticks + marks(
            state.events@,
            state.tick,
            CaptureEffect::RedOnLast,
        ),
        after_push(progress, state).red_off_last_ticks == progress.red_off_last_ticks + marks(
            state.events@,
            state.tick,
            CaptureEffect::RedOffLast,
        ),
        after_push(progress, state).blue_on_last_ticks == progress.blue_on_last_ticks + marks(
            state.events@,
            state.tick,
            CaptureEffect::BlueOnLast,
        ),
        after_push(progress, state).blue_off_last_ticks == progress.blue_off_last_ticks + marks(
            state.events@,
            state.tick,
            CaptureEffect::BlueOffLast,
        ),
{
    assert(sac_frames(progress, state, 1) == sac_frame(sac_frames(progress, state, 0), state));
}

/// What a sac is: the soldier is alive, within the sac distance of the
/// medic, nearer to the medic than to every living teammate other than
/// itself, and more than three of its teammates and more than four players
/// of the other team, itself aside, are alive.
pub proof fn lemma_what_a_sac_is<'a>(
    soldier: &'a Player,
    medic: &'a Player,
    soldier_team: Seq<&'a Player>,
    other_team: Seq<&'a Player>,
)
    ensures
        sacs(soldier, medic, soldier_team, other_team) <==> {
            &&& soldier.state == PlayerState::Alive
            &&& distance_key(soldier, medic) < SAC_DISTANCE_KEY
            &&& forall|j: int|
                0 <= j < soldier_team.len() && (#[trigger] soldier_team[j]).state == PlayerState::Alive
                    && soldier_team[j] != soldier ==> distance_key(soldier, medic) < distance_key(
                    soldier,
                    soldier_team[j],
                )
            &&& soldier_team.filter(|p: &'a Player| p.state == PlayerState::Alive && p != soldier).len() > 3
            &&& other_team.filter(|p: &'a Player| p.state == PlayerState::Alive && p != soldier).len() > 4
        },
{
    let pred = |p: &'a Player| p.state == PlayerState::Alive && p != soldier;
    assert(pred =~= alive_other_than(soldier));
    let everyone_else = soldier_team.filter(pred);
    let near = distance_key(soldier, medic);
    if forall|i: int| 0 <= i < everyone_else.len() ==> near < distance_key(soldier, #[trigger] everyone_else[i]) {
        assert forall|j: int|
            0 <= j < soldier_team.len() && (#[trigger] soldier_team[j]).state == PlayerState::Alive
                && soldier_team[j] != soldier implies near < distance_key(soldier, soldier_team[j]) by {
            assert(pred(soldier_team[j]));
            soldier_team.lemma_filter_contains(pred, j);
            let i = choose|i: int| 0 <= i < everyone_else.len() && everyone_else[i] == soldier_team[j];
        }
    }
    if forall|j: int|
        0 <= j < soldier_team.len() && (#[trigger] soldier_team[j]).state == PlayerState::Alive
            && soldier_team[j] != soldier ==> near < distance_key(soldier, soldier_team[j]) {
        assert forall|i: int| 0 <= i < everyone_else.len() implies near < distance_key(soldier, #[trigger] everyone_else[i]) by {
            soldier_team.lemma_filter_pred(pred, i);
            assert(everyone_else.contains(everyone_else[i]));
            soldier_team.lemma_filter_contains_rev(pred, everyone_else[i]);
            let j = choose|j: int| 0 <= j < soldier_team.len() && soldier_team[j] == everyone_else[i];
        }
    }
}

/// Where no soldier sacks the medic, a check changes nothing and starts no sac.
pub proof fn lemma_no_sac_changes_nothing<'a>(
    progress: SacProgress,
    soldiers: Seq<&'a Player>,
    medic: &'a Player,
    soldier_team: Seq<&'a Player>,
    other_team: Seq<&'a Player>,
    tick: u32,
)
    requires
        forall|k: int| 0 <= k < soldiers.len() ==> !sacs(#[trigger] soldiers[k], medic, soldier_team, other_team),
    ensures
        sac_check(progress, soldiers, medic, soldier_team, other_team, tick) == progress,
        sac_start(progress, soldiers, medic, soldier_team, other_team, tick) == 0,
{
}

/// Where soldier `k` is the first of `soldiers` sacking `medic`, a check at
/// `tick` makes that soldier, at `tick`, the last sac seen. Within
/// `SAC_REPEAT_TICKS` of the last sac seen before, it notes nothing and
/// starts no sac. Otherwise it starts a sac at `tick` and notes it for the
/// soldier's own team: red's list gains it where the soldier is red, blue's
/// where it is blue, and the other list stays as it was. Nothing else changes.
pub proof fn lemma_sac_noted_for_the_soldiers_team<'a>(
    progress: SacProgress,
    soldiers: Seq<&'a Player>,
    medic: &'a Player,
    soldier_team: Seq<&'a Player>,
    other_team: Seq<&'a Player>,
    tick: u32,
    k: int,
)
    requires
        0 <= k < soldiers.len(),
        sacs(soldiers[k], medic, soldier_team, other_team),
        forall|j: int| 0 <= j < k ==> !sacs(#[trigger] soldiers[j], medic, soldier_team, other_team),
    ensures
        sac_check(progress, soldiers, medic, soldier_team, other_team, tick).last_tick_with_sac == (
            soldiers[k].entity,
            tick,
        ),
        sac_start(progress, soldiers, medic, soldier_team, other_team, tick) == (if tick
            >= progress.last_tick_with_sac.1 + SAC_REPEAT_TICKS {
            tick
        } else {
            0
        }),
        sac_check(progress, soldiers, medic, soldier_team, other_team, tick).red_sac_ticks == (if tick
            >= progress.last_tick_with_sac.1 + SAC_REPEAT_TICKS && soldiers[k].team == Team::Red {
            progress.red_sac_ticks.push((soldiers[k].entity, tick))
        } else {
            progress.red_sac_ticks
        }),
        sac_check(progress, soldiers, medic, soldier_team, other_team, tick).blue_sac_ticks == (if tick
            >= progress.last_tick_with_sac.1 + SAC_REPEAT_TICKS && soldiers[k].team == Team::Blue {
            progress.blue_sac_ticks.push((soldiers[k].entity, tick))
        } else {
            progress.blue_sac_ticks
        }),
        (SacProgress {
            last_tick_with_sac: progress.last_tick_with_sac,
            red_sac_ticks: progress.red_sac_ticks,
            blue_sac_ticks: progress.blue_sac_ticks,
            ..sac_check(progress, soldiers, medic, soldier_team, other_team, tick)
        }) == progress,
{
    lemma_first_sac_unique(soldiers, medic, soldier_team, other_team, k);
}

proof fn lemma_filter_filter<A>(s: Seq<A>, f: spec_fn(A) -> bool, g: spec_fn(A) -> bool)
    ensures
        s.filter(f).filter(g) == s.filter(|x: A| f(x) && g(x)),
    decreases s.len(),
{
    let both = |x: A| f(x) && g(x);
    if s.len() == 0 {
        reveal_with_fuel(Seq::filter, 1);
        assert(s.filter(f) =~= Seq::<A>::empty());
        assert(s.filter(f).filter(g) =~= Seq::<A>::empty());
        assert(s.filter(both) =~= Seq::<A>::empty());
    } else {
        let rest = s.drop_last();
        let x = s.last();
        lemma_filter_filter(rest, f, g);
        assert(s == rest.push(x));
        rest.lemma_filter_push(x, f);
        rest.filter(f).lemma_filter_push(x, g);
        rest.lemma_filter_push(x, both);
    }
}

/// Where the first medic, in the order of the tick, of the team held on last
/// is not alive, a push notes no sac and leaves the last sac seen as it was.
pub proof fn lemma_no_sac_on_a_dead_medic<'a>(progress: SacProgress, state: GameState, team: Team)
    requires
        team == team_on_last(state.events@),
        borrow_all::<'a>(state.players@).filter(|p: &'a Player| p.class == Class::Medic && p.team == team)[0].state
            != PlayerState::Alive,
    ensures
        after_push(progress, state).red_sac_ticks == progress.red_sac_ticks,
        after_push(progress, state).blue_sac_ticks == progress.blue_sac_ticks,
        after_push(progress, state).last_tick_with_sac == progress.last_tick_with_sac,
{
    let all = borrow_all::<'a>(state.players@);
    lemma_filter_filter(all, of_class(Class::Medic), on_team(team));
    assert((|x: &'a Player| of_class::<'a>(Class::Medic)(x) && on_team::<'a>(team)(x)) =~= (|p: &'a Player|
        p.class == Class::Medic && p.team == team));
    assert(!frame_finds_sac(state));
    if state.has_world && progress.last_tick < state.tick {
        lemma_frames_note_at_most_one_sac(progress, state, (state.tick - progress.last_tick) as nat);
    }
}

/// A push where the world is known makes the tick pushed the last tick
/// analysed when it lies beyond it; otherwise the last tick stays.
pub proof fn lemma_push_sets_last_tick(progress: SacProgress, state: GameState)
    ensures
        after_push(progress, state).last_tick == (if state.has_world && progress.last_tick < state.tick {
            state.tick
        } else {
            progress.last_tick
        }),
{
}

/// Sacs are noted only for the team attacking a last point: where red is
/// held on last only blue's list may grow, where blue is held on last only
/// red's, and where nobody is, neither, and the last sac seen stays.
pub proof fn lemma_sacs_go_to_the_attackers(progress: SacProgress, state: GameState)
    ensures
        team_on_last(state.events@) != Team::Blue ==> after_push(progress, state).red_sac_ticks == progress.red_sac_ticks,
        team_on_last(state.events@) != Team::Red ==> after_push(progress, state).blue_sac_ticks == progress.blue_sac_ticks,
        team_on_last(state.events@) != Team::Red && team_on_last(state.events@) != Team::Blue ==> after_push(
            progress,
            state,
        ).last_tick_with_sac == progress.last_tick_with_sac,
{
    if state.has_world && progress.last_tick < state.tick {
        lemma_frames_for_attackers(progress, state, (state.tick - progress.last_tick) as nat);
    }
}

proof fn lemma_frames_for_attackers(progress: SacProgress, state: GameState, n: nat)
    ensures
        team_on_last(state.events@) != Team::Blue ==> sac_frames(progress, state, n).red_sac_ticks == progress.red_sac_ticks,
        team_on_last(state.events@) != Team::Red ==> sac_frames(progress, state, n).blue_sac_ticks == progress.blue_sac_ticks,
        team_on_last(state.events@) != Team::Red && team_on_last(state.events@) != Team::Blue ==> sac_frames(
            progress,
            state,
            n,
        ).last_tick_with_sac == progress.last_tick_with_sac,
    decreases n,
{
    if n > 0 {
        let before = sac_frames(progress, state, (n - 1) as nat);
        lemma_frames_for_attackers(progress, state, (n - 1) as nat);
        let tick = state.tick;
        let recorded = SacProgress { player_info: infos_after(before.player_info, state.players@), ..before };
        let marked = with_marks(recorded, state.events@, tick);
        lemma_frame_sac_for_attackers(marked, state, tick);
    }
}

proof fn lemma_frame_sac_for_attackers<'a>(progress: SacProgress, state: GameState, tick: u32)
    ensures
        team_on_last(state.events@) != Team::Blue ==> frame_sac_check(progress, state, tick).red_sac_ticks == progress.red_sac_ticks,
        team_on_last(state.events@) != Team::Red ==> frame_sac_check(progress, state, tick).blue_sac_ticks == progress.blue_sac_ticks,
        team_on_last(state.events@) != Team::Red && team_on_last(state.events@) != Team::Blue ==> frame_sac_check(
            progress,
            state,
            tick,
        ) == progress,
{
    let players = borrow_all::<'a>(state.players@);
    let soldiers = players.filter(of_class(Class::Soldier));
    let medics = players.filter(of_class(Class::Medic));
    let red_team = players.filter(on_team(Team::Red));
    let blue_team = players.filter(on_team(Team::Blue));
    if team_on_last(state.events@) == Team::Red {
        let attackers = soldiers.filter(on_team(Team::Blue));
        let medic = medics.filter(on_team(Team::Red))[0];
        if any_sac(attackers, medic, blue_team, red_team) {
            let k = choose|k: int| 0 <= k < attackers.len() && sacs(#[trigger] attackers[k], medic, blue_team, red_team);
            lemma_first_exists(attackers, medic, blue_team, red_team, k);
            let f = choose|f: int| first_sac(attackers, medic, blue_team, red_team, f);
            lemma_first_sac_unique(attackers, medic, blue_team, red_team, f);
            soldiers.lemma_filter_pred(on_team(Team::Blue), f);
        }
    } else if team_on_last(state.events@) == Team::Blue {
        let attackers = soldiers.filter(on_team(Team::Red));
        let medic = medics.filter(on_team(Team::Blue))[0];
        if any_sac(attackers, medic, red_team, blue_team) {
            let k = choose|k: int| 0 <= k < attackers.len() && sacs(#[trigger] attackers[k], medic, red_team, blue_team);
            lemma_first_exists(attackers, medic, red_team, blue_team, k);
            let f = choose|f: int| first_sac(attackers, medic, red_team, blue_team, f);
            lemma_first_sac_unique(attackers, medic, red_team, blue_team, f);
            soldiers.lemma_filter_pred(on_team(Team::Red), f);
        }
    }
}

proof fn lemma_first_exists<'a>(
    soldiers: Seq<&'a Player>,
    medic: &'a Player,
    soldier_team: Seq<&'a Player>,
    other_team: Seq<&'a Player>,
    k: int,
)
    requires
        0 <= k < soldiers.len(),
        sacs(soldiers[k], medic, soldier_team, other_team),
    ensures
        exists|f: int| first_sac(soldiers, medic, soldier_team, other_team, f),
    decreases k,
{
    if exists|j: int| 0 <= j < k && sacs(#[trigger] soldiers[j], medic, soldier_team, other_team) {
        let j = choose|j: int| 0 <= j < k && sacs(#[trigger] soldiers[j], medic, soldier_team, other_team);
        lemma_first_exists(soldiers, medic, soldier_team, other_team, j);
    } else {
        assert(first_sac(soldiers, medic, soldier_team, other_team, k));
    }
}

} // verus!
