//! What the analyses read of one tick of a demo: the players, the world and
//! the game events, as plain values.
use vstd::prelude::*;

verus! {

/// The side a player or an entity plays on.
#[derive(Clone, Copy, Debug, PartialEq, Eq, Structural)]
pub enum Team {
    Other,
    Spectator,
    Red,
    Blue,
}

impl Team {
    /// The number by which game events name the team.
    pub open spec fn spec_code(self) -> u8 {
        match self {
            Team::Other => 0,
            Team::Spectator => 1,
            Team::Red => 2,
            Team::Blue => 3,
        }
    }

    /// The number by which game events name the team.
    pub fn code(&self) -> (code: u8)
        ensures
            code == self.spec_code(),
    {
        match self {
            Team::Other => 0,
            Team::Spectator => 1,
            Team::Red => 2,
            Team::Blue => 3,
        }
    }
}

/// The class a player plays.
#[derive(Clone, Copy, Debug, PartialEq, Eq, Structural)]
pub enum Class {
    Other,
    Scout,
    Sniper,
    Soldier,
    Demoman,
    Medic,
    Heavy,
    Pyro,
    Spy,
    Engineer,
}

/// The life state of a player.
#[derive(Clone, Copy, Debug, PartialEq, Eq, Structural)]
pub enum PlayerState {
    Alive,
    Dying,
    Death,
    Respawnable,
}

/// The control points of a five point map, as capture events number them.
///
/// The numbers are an assumption of this library, not something the parser
/// tells: they follow the order in which five point maps list their points,
/// from blue's last (0) over the middle (2) to red's last (4). A map that
/// numbers its points otherwise has its captures misread.
#[derive(Clone, Copy, Debug, PartialEq, Eq, Structural)]
pub enum ControlPoint {
    BlueLast,
    BlueSecond,
    Middle,
    RedSecond,
    RedLast,
}

impl ControlPoint {
    /// The number of the point in capture events.
    pub open spec fn spec_index(self) -> u8 {
        match self {
            ControlPoint::BlueLast => 0,
            ControlPoint::BlueSecond => 1,
            ControlPoint::Middle => 2,
            ControlPoint::RedSecond => 3,
            ControlPoint::RedLast => 4,
        }
    }

    /// The number of the point in capture events.
    pub fn index(&self) -> (index: u8)
        ensures
            index == self.spec_index(),
    {
        match self {
            ControlPoint::BlueLast => 0,
            ControlPoint::BlueSecond => 1,
            ControlPoint::Middle => 2,
            ControlPoint::RedSecond => 3,
            ControlPoint::RedLast => 4,
        }
    }
}

/// What the server tells of a connected user.
#[derive(Debug)]
pub struct UserInfo {
    /// How often the user spawned as each class, by class number.
    pub classes: [u16; 10],
    pub name: String,
    pub user_id: u16,
    pub steam_id: String,
    pub entity_id: u32,
    pub team: Team,
}

impl Clone for UserInfo {
    fn clone(&self) -> (copy: Self)
        ensures
            copy == *self,
    {
        UserInfo {
            classes: self.classes,
            name: self.name.clone(),
            user_id: self.user_id,
            steam_id: self.steam_id.clone(),
            entity_id: self.entity_id,
            team: self.team,
        }
    }
}

/// A player as one tick of the demo shows it.
///
/// Within a tick, a player is told apart from the others by its slot and
/// its entity together: no two players of one tick share both. Distances between players are
/// given as keys: `distance_keys[j]` is the key of the distance from this
/// player to the player in slot `j` of the same tick. Keys order distances
/// as the distances themselves are ordered; `INFINITY_KEY` is the key of an
/// infinite distance and no key of a finite distance reaches it.
#[derive(Debug)]
pub struct Player {
    pub entity: u32,
    pub class: Class,
    pub team: Team,
    pub state: PlayerState,
    pub info: Option<UserInfo>,
    /// The position of the player in the list of players of its tick.
    pub slot: usize,
    pub distance_keys: Vec<u32>,
}

/// The key of an infinite distance.
pub const INFINITY_KEY: u32 = 0x7f80_0000;

/// Whether `player` knows its distance to `other`.
pub open spec fn measures(player: &Player, other: &Player) -> bool {
    other.slot < player.distance_keys@.len()
}

/// The key of the distance from `player` to `other`.
pub open spec fn distance_key(player: &Player, other: &Player) -> u32 {
    player.distance_keys@[other.slot as int]
}

/// The key of the distance from `player` to `other`.
pub fn dist_key(player: &Player, other: &Player) -> (key: u32)
    requires
        measures(player, other),
    ensures
        key == distance_key(player, other),
{
    player.distance_keys[other.slot]
}

/// A game event, as far as the analyses tell events apart.
#[derive(Clone, Copy, Debug, PartialEq, Eq, Structural)]
pub enum GameEvent {
    /// Team `team` captured control point `cp`.
    PointCaptured { cp: u8, team: u8 },
    /// Any other event.
    Unrelated,
}

/// One tick of a demo.
#[derive(Debug)]
pub struct GameState {
    pub players: Vec<Player>,
    /// Whether the world (the map's bounds) is known yet.
    pub has_world: bool,
    pub tick: u32,
    /// The events seen so far, each with the tick at which it came.
    pub events: Vec<(u32, GameEvent)>,
}

impl GameState {
    /// Every player sits in its own slot and knows its distance to every player.
    pub open spec fn wf(&self) -> bool {
        forall|i: int|
            0 <= i < self.players@.len() ==> {
                &&& (#[trigger] self.players@[i]).slot == i
                &&& self.players@[i].distance_keys@.len() == self.players@.len()
            }
    }
}

/// The header of a demo, carried through the analyses as the parser gives it.
#[verifier::external_type_specification]
#[verifier::external_body]
pub struct ExHeader(tf_demo_parser::demo::header::Header);

} // verus!
