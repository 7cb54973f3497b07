//! Strategies a team plays on the last point, and how they end.
use vstd::prelude::*;

use crate::game::Team;

verus! {

/// The kind of a strategy.
#[derive(Clone, Copy, Debug, PartialEq, Eq, Structural)]
pub enum StratType {
    SAC,
    SPY,
    SNIPE,
    /// A teamfight without an uber.
    DRY,
    UBER,
    DOUBLESAC,
    HEAVY,
    PYRO,
}

/// How a strategy ended.
#[derive(Clone, Copy, Debug, PartialEq, Eq, Structural)]
pub enum StratResult {
    MedDrop,
    MedForce,
    DemoKill,
    PlayerDeath,
    TeamWipe,
    PointTaken,
    LastTaken,
    /// The results past this one are the ones above, suffered by the team itself.
    FriendlyMarker,
}

/// A strategy played by `team` at `tick`, with the tick and kind of its end.
#[derive(Clone, Copy, Debug, PartialEq, Eq, Structural)]
pub struct Strat {
    pub strat_type: StratType,
    pub tick: usize,
    pub result_tick: usize,
    pub team: Team,
    pub result: StratResult,
}

} // verus!
