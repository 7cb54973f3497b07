//! Questions asked of players: who they are, which of them are on a team,
//! who is alive, who stands nearest.
use vstd::prelude::*;

use crate::game::{distance_key, dist_key, measures, Class, Player, PlayerState, Team, UserInfo, INFINITY_KEY};

verus! {

broadcast use vstd::seq_lib::group_seq_properties;

/// The players of `players`, borrowed in their order.
pub open spec fn borrow_all<'a>(players: Seq<Player>) -> Seq<&'a Player> {
    Seq::new(players.len(), |i: int| &players[i])
}

/// Whether a player is on `team`.
pub open spec fn on_team<'a>(team: Team) -> spec_fn(&'a Player) -> bool {
    |p: &'a Player| p.team == team
}

/// Whether a player plays `class`.
pub open spec fn of_class<'a>(class: Class) -> spec_fn(&'a Player) -> bool {
    |p: &'a Player| p.class == class
}

/// The name shown for a player: its user's name, or "Unknown".
pub open spec fn name_of(player: &Player) -> Seq<char> {
    match player.info {
        Some(info) => info.name@,
        None => "Unknown"@,
    }
}

/// The name of the player's user, or "Unknown" where the player has none.
pub fn get_name(player: &Player) -> (name: String)
    ensures
        name@ == name_of(player),
{
    match &player.info {
        Some(info) => info.name.clone(),
        None => "Unknown".to_string(),
    }
}

/// The user id of the player's user.
pub fn get_user_id(player: &Player) -> (id: u16)
    requires
        player.info is Some,
    ensures
        id == player.info->Some_0.user_id,
{
    match &player.info {
        Some(info) => info.user_id,
        None => 0,
    }
}

/// Whether the player is alive.
pub fn is_alive(player: &Player) -> (alive: bool)
    ensures
        alive == (player.state == PlayerState::Alive),
{
    player.state == PlayerState::Alive
}

/// The players of `players` that are on `team`, in their order.
pub fn find_on_team<'a>(players: Vec<&'a Player>, team: Team, max_capacity: usize) -> (members: Vec<&'a Player>)
    ensures
        members@ == players@.filter(on_team(team)),
{
    let ghost pred = on_team(team);
    let mut team_players: Vec<&'a Player> = Vec::with_capacity(max_capacity);
    let mut i: usize = 0;
    while i < players.len()
        invariant
            i <= players@.len(),
            pred == on_team::<'a>(team),
            team_players@ == players@.take(i as int).filter(pred),
        decreases players@.len() - i,
    {
        let player = players[i];
        proof {
            players@.take(i as int).lemma_filter_push(player, pred);
            assert(players@.take(i + 1) == players@.take(i as int).push(player));
            assert(pred(player) == (player.team == team));
        }
        if player.team == team {
            team_players.push(player);
        }
        i = i + 1;
    }
    proof {
        assert(players@.take(i as int) == players@);
    }
    team_players
}

/// The soldiers of `soldiers` on `team`, in their order.
pub fn find_soldiers<'a>(soldiers: Vec<&'a Player>, team: Team) -> (members: Vec<&'a Player>)
    ensures
        members@ == soldiers@.filter(on_team(team)),
{
    find_on_team(soldiers, team, 2)
}

/// The first medic of `medics` on `team`.
pub fn find_medic<'a>(medics: Vec<&'a Player>, team: Team) -> (medic: &'a Player)
    requires
        exists|i: int| 0 <= i < medics@.len() && (#[trigger] medics@[i]).team == team,
    ensures
        medic == medics@.filter(on_team(team))[0],
{
    let ghost pred = on_team(team);
    proof {
        let i = choose|i: int| 0 <= i < medics@.len() && (#[trigger] medics@[i]).team == team;
        assert(pred(medics@[i]));
        assert(medics@.filter(pred).contains(medics@[i]));
    }
    let members = find_on_team(medics, team, 1);
    members[0]
}

/// In `list`, the slot and the entity of `player` pick out `player` itself:
/// every listed player in its slot with its entity equals it in every field.
/// This holds of players drawn from one tick, where each slot holds one player.
pub open spec fn picked_out_by_slot(list: Seq<&Player>, player: &Player) -> bool {
    forall|i: int|
        0 <= i < list.len() && (#[trigger] list[i]).slot == player.slot && list[i].entity == player.entity
            ==> list[i] == player
}

/// Whether a player stays when a list is taken without `player`: it is
/// alive and it is not equal to `player`.
pub open spec fn alive_other_than<'a>(player: &'a Player) -> spec_fn(&'a Player) -> bool {
    |p: &'a Player| p.state == PlayerState::Alive && p != player
}

/// The players of `vec` that are alive and are not equal to `player`, in
/// their order. The player is recognized by its slot and entity, which within
/// `vec` pick it out.
pub fn get_without<'a>(vec: &Vec<&'a Player>, player: &'a Player) -> (without: Vec<&'a Player>)
    requires
        picked_out_by_slot(vec@, player),
    ensures
        without@ == vec@.filter(alive_other_than(player)),
        forall|i: int| 0 <= i < without@.len() ==> #[trigger] without@[i] != player,
        forall|i: int| 0 <= i < without@.len() ==> (#[trigger] without@[i]).state == PlayerState::Alive,
{
    let ghost pred = alive_other_than(player);
    let mut without: Vec<&'a Player> = Vec::new();
    let mut i: usize = 0;
    while i < vec.len()
        invariant
            i <= vec@.len(),
            picked_out_by_slot(vec@, player),
            pred == alive_other_than(player),
            without@ == vec@.take(i as int).filter(pred),
        decreases vec@.len() - i,
    {
        let p = vec[i];
        proof {
            vec@.take(i as int).lemma_filter_push(p, pred);
            assert(vec@.take(i + 1) == vec@.take(i as int).push(p));
            assert(pred(p) == (p.state == PlayerState::Alive && p != player));
            assert(vec@[i as int] == p);
        }
        if p.state == PlayerState::Alive && !(p.slot == player.slot && p.entity == player.entity) {
            without.push(p);
        }
        i = i + 1;
    }
    proof {
        assert(vec@.take(i as int) == vec@);
        assert forall|k: int| 0 <= k < without@.len() implies pred(#[trigger] without@[k]) by {
            vec@.lemma_filter_pred(pred, k);
        }
    }
    without
}

/// Position `i` of `others` holds the player nearest to `player`: its key
/// lies below the key of infinity, every earlier key is greater and no later
/// key is less.
pub open spec fn is_nearest(player: &Player, others: Seq<&Player>, i: int) -> bool {
    &&& 0 <= i < others.len()
    &&& distance_key(player, others[i]) < INFINITY_KEY
    &&& forall|j: int| 0 <= j < i ==> distance_key(player, #[trigger] others[j]) > distance_key(player, others[i])
    &&& forall|j: int| i < j < others.len() ==> distance_key(player, #[trigger] others[j]) >= distance_key(player, others[i])
}

/// Some player of `others` lies at a finite distance from `player`.
pub open spec fn any_finite(player: &Player, others: Seq<&Player>) -> bool {
    exists|j: int| 0 <= j < others.len() && distance_key(player, #[trigger] others[j]) < INFINITY_KEY
}

/// `player` knows its distance to every player of `others`.
pub open spec fn measures_all(player: &Player, others: Seq<&Player>) -> bool {
    forall|j: int| 0 <= j < others.len() ==> measures(player, #[trigger] others[j])
}

/// The position in `others` of the player nearest to `player`; the first
/// position where no player lies at a finite distance.
fn nearest_index(player: &Player, others: &Vec<&Player>) -> (idx: usize)
    requires
        measures_all(player, others@),
    ensures
        others@.len() > 0 ==> idx < others@.len(),
        any_finite(player, others@) ==> is_nearest(player, others@, idx as int),
        !any_finite(player, others@) ==> idx == 0,
{
    let mut min: u32 = INFINITY_KEY;
    let mut idx: usize = 0;
    let mut i: usize = 0;
    while i < others.len()
        invariant
            i <= others@.len(),
            measures_all(player, others@),
            others@.len() > 0 ==> idx < others@.len(),
            min <= INFINITY_KEY,
            min == INFINITY_KEY ==> idx == 0,
            min == INFINITY_KEY ==> forall|j: int| 0 <= j < i ==> distance_key(player, #[trigger] others@[j]) >= INFINITY_KEY,
            min < INFINITY_KEY ==> {
                &&& idx < i
                &&& min == distance_key(player, others@[idx as int])
                &&& forall|j: int| 0 <= j < idx ==> distance_key(player, #[trigger] others@[j]) > min
                &&& forall|j: int| idx < j < i ==> distance_key(player, #[trigger] others@[j]) >= min
            },
        decreases others@.len() - i,
    {
        let other = others[i];
        assert(measures(player, others@[i as int]));
        let key = dist_key(player, other);
        if key < min {
            min = key;
            idx = i;
        }
        i = i + 1;
    }
    idx
}

/// The least of the key of infinity and the keys of the distances from
/// `player` to `others`.
pub open spec fn least_key<'a>(player: &'a Player, others: Seq<&'a Player>) -> u32
    decreases others.len(),
{
    if others.len() == 0 {
        INFINITY_KEY
    } else {
        let before = least_key(player, others.drop_last());
        let key = distance_key(player, others.last());
        if key < before {
            key
        } else {
            before
        }
    }
}

/// The least key lies at or below the key of infinity and at or below every
/// key of `others`, and it is the key of infinity or one of their keys.
pub proof fn lemma_least_key_bounds<'a>(player: &'a Player, others: Seq<&'a Player>)
    ensures
        least_key(player, others) <= INFINITY_KEY,
        forall|j: int| 0 <= j < others.len() ==> least_key(player, others) <= distance_key(player, #[trigger] others[j]),
        least_key(player, others) == INFINITY_KEY || exists|j: int|
            0 <= j < others.len() && least_key(player, others) == distance_key(player, #[trigger] others[j]),
    decreases others.len(),
{
    if others.len() > 0 {
        let rest = others.drop_last();
        lemma_least_key_bounds(player, rest);
        assert forall|j: int| 0 <= j < others.len() implies least_key(player, others) <= distance_key(player, #[trigger] others[j]) by {
            if j < others.len() - 1 {
                assert(others[j] == rest[j]);
            }
        }
        if least_key(player, others) != INFINITY_KEY {
            if least_key(player, others) == least_key(player, rest) {
                let j = choose|j: int| 0 <= j < rest.len() && least_key(player, rest) == distance_key(player, #[trigger] rest[j]);
                assert(others[j] == rest[j]);
            } else {
                assert(least_key(player, others) == distance_key(player, others[others.len() - 1]));
            }
        }
    }
}

/// The least key of the distances from a player to `others` is the key of
/// its distance to the nearest of them.
pub proof fn lemma_nearest_has_least_key<'a>(player: &'a Player, others: Seq<&'a Player>, i: int)
    requires
        is_nearest(player, others, i),
    ensures
        least_key(player, others) == distance_key(player, others[i]),
{
    lemma_least_key_bounds(player, others);
    if least_key(player, others) != distance_key(player, others[i]) {
        let j = choose|j: int| 0 <= j < others.len() && least_key(player, others) == distance_key(player, #[trigger] others[j]);
        if j < i {
            assert(distance_key(player, others[j]) > distance_key(player, others[i]));
        } else if j > i {
            assert(distance_key(player, others[j]) >= distance_key(player, others[i]));
        }
    }
}

/// Position `i` holds the nearest player exactly when its key is the least
/// key, that key is finite, and no earlier player has it.
pub proof fn lemma_nearest_is_first_least<'a>(player: &'a Player, others: Seq<&'a Player>, i: int)
    ensures
        is_nearest(player, others, i) <==> {
            &&& 0 <= i < others.len()
            &&& least_key(player, others) < INFINITY_KEY
            &&& distance_key(player, others[i]) == least_key(player, others)
            &&& forall|j: int| 0 <= j < i ==> distance_key(player, #[trigger] others[j]) != least_key(player, others)
        },
{
    lemma_least_key_bounds(player, others);
    if is_nearest(player, others, i) {
        lemma_nearest_has_least_key(player, others, i);
    }
}

/// A pass over `players` adds to `infos` the user info of each player, in
/// order, that comes when the list holds no more infos than the player's
/// position: a player without a user adds nothing, nor does a player whose
/// position the list already reaches.
pub proof fn lemma_infos_after_player(infos: Seq<UserInfo>, players: Seq<Player>, player: Player)
    ensures
        infos_after(infos, Seq::empty()) == infos,
        infos_after(infos, players.push(player)) == (match player.info {
            Some(info) => if players.len() >= infos_after(infos, players).len() {
                infos_after(infos, players).push(info)
            } else {
                infos_after(infos, players)
            },
            None => infos_after(infos, players),
        }),
{
    assert(players.push(player).drop_last() == players);
}

/// The least key of the distances from `player` to `others`; the key of
/// infinity where there is nobody, or nobody at a finite distance.
pub fn get_min_dist_key(player: &Player, others: &Vec<&Player>) -> (min: u32)
    requires
        measures_all(player, others@),
    ensures
        min == least_key(player, others@),
        min <= INFINITY_KEY,
        forall|j: int| 0 <= j < others@.len() ==> min <= distance_key(player, #[trigger] others@[j]),
        min == INFINITY_KEY || exists|j: int| 0 <= j < others@.len() && min == distance_key(player, #[trigger] others@[j]),
{
    let mut min: u32 = INFINITY_KEY;
    let mut i: usize = 0;
    while i < others.len()
        invariant
            i <= others@.len(),
            measures_all(player, others@),
            min == least_key(player, others@.take(i as int)),
        decreases others@.len() - i,
    {
        proof {
            assert(others@.take(i + 1).drop_last() == others@.take(i as int));
        }
        assert(measures(player, others@[i as int]));
        let key = dist_key(player, others[i]);
        if key < min {
            min = key;
        }
        i = i + 1;
    }
    proof {
        assert(others@.take(i as int) == others@);
        lemma_least_key_bounds(player, others@);
    }
    min
}

/// The player of `everyone_else` nearest to `player`: the first of the
/// nearest where several are as near; the first player where none lies at a
/// finite distance; nothing where `everyone_else` is empty.
pub fn get_min_dist_player<'a>(player: &'a Player, everyone_else: &'a Vec<&'a Player>) -> (nearest: Option<&'a Player>)
    requires
        measures_all(player, everyone_else@),
    ensures
        everyone_else@.len() == 0 <==> nearest is None,
        any_finite(player, everyone_else@) ==> exists|i: int|
            is_nearest(player, everyone_else@, i) && nearest == Some(everyone_else@[i]),
        everyone_else@.len() > 0 && !any_finite(player, everyone_else@) ==> nearest == Some(everyone_else@[0]),
{
    let idx = nearest_index(player, everyone_else);
    if everyone_else.len() == 0 {
        return None;
    }
    Some(everyone_else[idx])
}

/// The name of the player of `everyone_else` nearest to `player`, chosen as
/// `get_min_dist_player` chooses it.
pub fn get_min_dist_name(player: &Player, everyone_else: &Vec<&Player>) -> (name: String)
    requires
        everyone_else@.len() > 0,
        measures_all(player, everyone_else@),
    ensures
        any_finite(player, everyone_else@) ==> exists|i: int|
            is_nearest(player, everyone_else@, i) && name@ == name_of(everyone_else@[i]),
        !any_finite(player, everyone_else@) ==> name@ == name_of(everyone_else@[0]),
{
    let idx = nearest_index(player, everyone_else);
    get_name(everyone_else[idx])
}

/// The user infos kept after a pass over `players`: the user info of the
/// player at position `i` is added where the list holds fewer than `i + 1`
/// infos when that player comes.
pub open spec fn infos_after(infos: Seq<UserInfo>, players: Seq<Player>) -> Seq<UserInfo>
    decreases players.len(),
{
    if players.len() == 0 {
        infos
    } else {
        let before = infos_after(infos, players.drop_last());
        match players.last().info {
            Some(info) => if players.len() - 1 >= before.len() {
                before.push(info)
            } else {
                before
            },
            None => before,
        }
    }
}

/// Adds to `infos` the user infos of the players that lie beyond its end.
pub fn record_user_infos(infos: &mut Vec<UserInfo>, players: &Vec<Player>)
    ensures
        final(infos)@ == infos_after(old(infos)@, players@),
{
    let ghost start = infos@;
    let mut index: usize = 0;
    while index < players.len()
        invariant
            index <= players@.len(),
            infos@ == infos_after(start, players@.take(index as int)),
        decreases players@.len() - index,
    {
        proof {
            assert(players@.take(index + 1).drop_last() == players@.take(index as int));
        }
        let player = &players[index];
        if index >= infos.len() {
            if let Some(info) = &player.info {
                infos.push(info.clone());
            }
        }
        index = index + 1;
    }
    proof {
        assert(players@.take(index as int) == players@);
    }
}

} // verus!
