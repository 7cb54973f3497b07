//! Collects, tick by tick, the users of a demo, for an analysis of airshots.
use vstd::prelude::*;

use tf_demo_parser::demo::header::Header;

use crate::game::{GameState, Player, UserInfo};
use crate::players::{infos_after, record_user_infos};

pub use crate::players::{find_on_team, get_name, get_user_id, is_alive};
pub use crate::strat::{Strat, StratResult, StratType};

verus! {

/// The room made at the start for the user infos and for most tick lists.
pub const LIST_CAPACITY: usize = 30;

/// What the analysis of a demo has found so far.
pub struct ParsedDemo {
    /// The last tick that has been analysed.
    pub last_tick: u32,
    pub player_info: Vec<UserInfo>,
    pub header: Header,
    pub airshot_ticks: Vec<u32>,
    pub kill_ticks: Vec<u32>,
    pub death_ticks: Vec<u32>,
}

/// The user infos after `n` passes over `players`.
pub open spec fn infos_after_passes(infos: Seq<UserInfo>, players: Seq<Player>, n: nat) -> Seq<UserInfo>
    decreases n,
{
    if n == 0 {
        infos
    } else {
        infos_after(infos_after_passes(infos, players, (n - 1) as nat), players)
    }
}

/// The last tick analysed and the user infos after `state` is pushed onto an
/// analysis at `last_tick` with `infos`: where the world is known and the
/// tick of `state` lies beyond `last_tick`, one pass over its players for
/// every tick in between.
pub open spec fn airshot_push(last_tick: u32, infos: Seq<UserInfo>, state: GameState) -> (u32, Seq<UserInfo>) {
    if state.has_world && last_tick < state.tick {
        (state.tick, infos_after_passes(infos, state.players@, (state.tick - last_tick) as nat))
    } else {
        (last_tick, infos)
    }
}

impl ParsedDemo {
    /// An analysis of the demo with header `header` that has seen nothing yet.
    pub fn new(header: Header) -> (demo: Self)
        ensures
            demo.last_tick == 0,
            demo.player_info@ == Seq::<UserInfo>::empty(),
            demo.header == header,
            demo.airshot_ticks@ == Seq::<u32>::empty(),
            demo.kill_ticks@ == Seq::<u32>::empty(),
            demo.death_ticks@ == Seq::<u32>::empty(),
    {
        ParsedDemo {
            last_tick: 0,
            player_info: Vec::with_capacity(LIST_CAPACITY),
            header,
            airshot_ticks: Vec::with_capacity(LIST_CAPACITY),
            kill_ticks: Vec::with_capacity(60),
            death_ticks: Vec::with_capacity(LIST_CAPACITY),
        }
    }

    /// Ends the analysis with the final state of the demo; nothing is left
    /// to do there.
    pub fn finish(&mut self, state: &GameState)
        ensures
            *final(self) == *old(self),
    {
    }

    /// Analyses the tick `game_state`: where the world is known, one pass
    /// over its players for every tick from the last tick analysed up to its
    /// own, recording the user infos of new players.
    pub fn push_state(&mut self, game_state: &GameState)
        ensures
            (final(self).last_tick, final(self).player_info@) == airshot_push(
                old(self).last_tick,
                old(self).player_info@,
                *game_state,
            ),
            final(self).header == old(self).header,
            final(self).airshot_ticks@ == old(self).airshot_ticks@,
            final(self).kill_ticks@ == old(self).kill_ticks@,
            final(self).death_ticks@ == old(self).death_ticks@,
    {
        if game_state.has_world {
            let start = self.last_tick;
            let mut frame = start;
            while frame < game_state.tick
                invariant
                    start == old(self).last_tick,
                    start <= frame,
                    start < game_state.tick ==> frame <= game_state.tick,
                    start >= game_state.tick ==> frame == start,
                    self.player_info@ == infos_after_passes(old(self).player_info@, game_state.players@, (frame - start) as nat),
                    frame > start ==> self.last_tick == game_state.tick,
                    frame == start ==> self.last_tick == start,
                    self.header == old(self).header,
                    self.airshot_ticks@ == old(self).airshot_ticks@,
                    self.kill_ticks@ == old(self).kill_ticks@,
                    self.death_ticks@ == old(self).death_ticks@,
                decreases game_state.tick - frame,
            {
                let tick = game_state.tick;
                record_user_infos(&mut self.player_info, &game_state.players);
                self.last_tick = tick;
                frame = frame + 1;
            }
        }
    }
}

/// Pushing the same tick a second time changes nothing.
pub proof fn lemma_airshot_push_twice_is_push_once(last_tick: u32, infos: Seq<UserInfo>, state: GameState)
    ensures
        airshot_push(airshot_push(last_tick, infos, state).0, airshot_push(last_tick, infos, state).1, state)
            == airshot_push(last_tick, infos, state),
{
}

} // verus!
