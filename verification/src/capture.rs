//! What point captures tell of which team is held on its last point.
use vstd::prelude::*;

use crate::game::{ControlPoint, GameEvent, Team};

verus! {

/// What one game event tells of the last points.
#[derive(Clone, Copy, Debug, PartialEq, Eq, Structural)]
pub enum CaptureEffect {
    /// Red took blue's second point: blue is held on its last.
    BlueOnLast,
    /// Blue took back its second point.
    BlueOffLast,
    /// Blue took red's second point: red is held on its last.
    RedOnLast,
    /// Red took back its second point.
    RedOffLast,
    /// A last point fell: nobody is held on last any more.
    LastCapped,
    /// The event says nothing of the last points.
    Unrelated,
}

/// What `event` tells of the last points.
pub open spec fn spec_capture_effect(event: GameEvent) -> CaptureEffect {
    match event {
        GameEvent::PointCaptured { cp, team } => {
            if cp == ControlPoint::BlueSecond.spec_index() {
                if team == Team::Red.spec_code() {
                    CaptureEffect::BlueOnLast
                } else {
                    CaptureEffect::BlueOffLast
                }
            } else if cp == ControlPoint::RedSecond.spec_index() {
                if team == Team::Blue.spec_code() {
                    CaptureEffect::RedOnLast
                } else {
                    CaptureEffect::RedOffLast
                }
            } else if cp == ControlPoint::RedLast.spec_index() || cp == ControlPoint::BlueLast.spec_index() {
                CaptureEffect::LastCapped
            } else {
                CaptureEffect::Unrelated
            }
        },
        GameEvent::Unrelated => CaptureEffect::Unrelated,
    }
}

/// What `event` tells of the last points.
pub fn capture_effect(event: &GameEvent) -> (effect: CaptureEffect)
    ensures
        effect == spec_capture_effect(*event),
{
    match event {
        GameEvent::PointCaptured { cp, team } => {
            if *cp == ControlPoint::BlueSecond.index() {
                if *team == Team::Red.code() {
                    CaptureEffect::BlueOnLast
                } else {
                    CaptureEffect::BlueOffLast
                }
            } else if *cp == ControlPoint::RedSecond.index() {
                if *team == Team::Blue.code() {
                    CaptureEffect::RedOnLast
                } else {
                    CaptureEffect::RedOffLast
                }
            } else if *cp == ControlPoint::RedLast.index() || *cp == ControlPoint::BlueLast.index() {
                CaptureEffect::LastCapped
            } else {
                CaptureEffect::Unrelated
            }
        },
        GameEvent::Unrelated => CaptureEffect::Unrelated,
    }
}

/// The team held on its last point after `events`: the one that the latest
/// event about the last points put there, `Other` where that event took
/// every team off last or where no event spoke of the last points.
pub open spec fn team_on_last(events: Seq<(u32, GameEvent)>) -> Team
    decreases events.len(),
{
    if events.len() == 0 {
        Team::Other
    } else {
        match spec_capture_effect(events.last().1) {
            CaptureEffect::BlueOnLast => Team::Blue,
            CaptureEffect::RedOnLast => Team::Red,
            CaptureEffect::Unrelated => team_on_last(events.drop_last()),
            _ => Team::Other,
        }
    }
}

/// The marks that the events with effect `effect` leave at `tick`: `tick`
/// once for every such event that came at `tick`, in the order of events.
pub open spec fn marks(events: Seq<(u32, GameEvent)>, tick: u32, effect: CaptureEffect) -> Seq<u32>
    decreases events.len(),
{
    if events.len() == 0 {
        Seq::empty()
    } else {
        let before = marks(events.drop_last(), tick, effect);
        if events.last().0 == tick && spec_capture_effect(events.last().1) == effect {
            before.push(tick)
        } else {
            before
        }
    }
}

/// No event ever puts the spectators on last.
pub proof fn lemma_team_on_last_is_not_spectator(events: Seq<(u32, GameEvent)>)
    ensures
        team_on_last(events) != Team::Spectator,
    decreases events.len(),
{
    if events.len() > 0 {
        lemma_team_on_last_is_not_spectator(events.drop_last());
    }
}

/// No event at all leaves nobody on last; after one more event, the team
/// on last is: blue where red took blue's second point, red where blue took
/// red's second point, nobody where a team took back its own second point or
/// a last point fell, and whoever was on last before after any other event.
pub proof fn lemma_team_on_last_after_event(events: Seq<(u32, GameEvent)>, tick: u32, event: GameEvent)
    ensures
        team_on_last(Seq::empty()) == Team::Other,
        team_on_last(events.push((tick, event))) == (match event {
            GameEvent::PointCaptured { cp, team } => if cp == ControlPoint::BlueSecond.spec_index() {
                if team == Team::Red.spec_code() {
                    Team::Blue
                } else {
                    Team::Other
                }
            } else if cp == ControlPoint::RedSecond.spec_index() {
                if team == Team::Blue.spec_code() {
                    Team::Red
                } else {
                    Team::Other
                }
            } else if cp == ControlPoint::RedLast.spec_index() || cp == ControlPoint::BlueLast.spec_index() {
                Team::Other
            } else {
                team_on_last(events)
            },
            GameEvent::Unrelated => team_on_last(events),
        }),
{
    assert(events.push((tick, event)).drop_last() == events);
}

/// No event leaves no mark; one more event adds `tick` to the marks of a
/// kind exactly when it came at `tick` and is a capture of that kind: of
/// blue's second point by red (blue on last) or by anyone else (blue off
/// last), of red's second point by blue (red on last) or by anyone else (red
/// off last).
pub proof fn lemma_marks_after_event(events: Seq<(u32, GameEvent)>, tick: u32, at: u32, event: GameEvent)
    ensures
        marks(Seq::empty(), tick, CaptureEffect::BlueOnLast) == Seq::<u32>::empty(),
        marks(Seq::empty(), tick, CaptureEffect::BlueOffLast) == Seq::<u32>::empty(),
        marks(Seq::empty(), tick, CaptureEffect::RedOnLast) == Seq::<u32>::empty(),
        marks(Seq::empty(), tick, CaptureEffect::RedOffLast) == Seq::<u32>::empty(),
        marks(events.push((at, event)), tick, CaptureEffect::BlueOnLast) == (if at == tick && (match event {
            GameEvent::PointCaptured { cp, team } => cp == ControlPoint::BlueSecond.spec_index() && team == Team::Red.spec_code(),
            GameEvent::Unrelated => false,
        }) {
            marks(events, tick, CaptureEffect::BlueOnLast).push(tick)
        } else {
            marks(events, tick, CaptureEffect::BlueOnLast)
        }),
        marks(events.push((at, event)), tick, CaptureEffect::BlueOffLast) == (if at == tick && (match event {
            GameEvent::PointCaptured { cp, team } => cp == ControlPoint::BlueSecond.spec_index() && team != Team::Red.spec_code(),
            GameEvent::Unrelated => false,
        }) {
            marks(events, tick, CaptureEffect::BlueOffLast).push(tick)
        } else {
            marks(events, tick, CaptureEffect::BlueOffLast)
        }),
        marks(events.push((at, event)), tick, CaptureEffect::RedOnLast) == (if at == tick && (match event {
            GameEvent::PointCaptured { cp, team } => cp == ControlPoint::RedSecond.spec_index() && team == Team::Blue.spec_code(),
            GameEvent::Unrelated => false,
        }) {
            marks(events, tick, CaptureEffect::RedOnLast).push(tick)
        } else {
            marks(events, tick, CaptureEffect::RedOnLast)
        }),
        marks(events.push((at, event)), tick, CaptureEffect::RedOffLast) == (if at == tick && (match event {
            GameEvent::PointCaptured { cp, team } => cp == ControlPoint::RedSecond.spec_index() && team != Team::Blue.spec_code(),
            GameEvent::Unrelated => false,
        }) {
            marks(events, tick, CaptureEffect::RedOffLast).push(tick)
        } else {
            marks(events, tick, CaptureEffect::RedOffLast)
        }),
{
    assert(events.push((at, event)).drop_last() == events);
}

} // verus!
