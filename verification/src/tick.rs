//! The order of a tick.
use vstd::prelude::*;

verus! {

/// What is done on a tick, one thing after the other.
#[derive(Clone, Copy, Debug, PartialEq, Eq, Structural)]
pub enum Stage {
    /// The player's object goes where the body is.
    Player,
    /// The room under the player, and its handler where that has changed.
    Room,
    /// What the body has come up against and come away from.
    Collisions,
    /// The timers that have come due.
    Timers,
    /// The doors that somebody has come near to, or left.
    Doors,
    /// The spawners that owe something.
    Spawners,
    /// The handlers of everything that is awake.
    Updates,
    /// The walkers in the air.
    Jumps,
    /// The looks ahead of those that watch their path.
    Paths,
    /// The turns and the steps of the walkers.
    Steps,
    /// The poses of their legs.
    Legs,
    /// The shots in the air.
    Shots,
    /// The clocks that the walkers wait on.
    Clocks,
    /// The animations, and the keys that they strike.
    Keys,
    /// The shaking of the ground.
    Shake,
    /// The sequences of what runs one.
    Scripts,
}

/// The place of a stage in the tick.
pub open spec fn place(s: Stage) -> int {
    match s {
        Stage::Player => 0,
        Stage::Room => 1,
        Stage::Collisions => 2,
        Stage::Timers => 3,
        Stage::Doors => 4,
        Stage::Spawners => 5,
        Stage::Updates => 6,
        Stage::Jumps => 7,
        Stage::Paths => 8,
        Stage::Steps => 9,
        Stage::Legs => 10,
        Stage::Shots => 11,
        Stage::Clocks => 12,
        Stage::Keys => 13,
        Stage::Shake => 14,
        Stage::Scripts => 15,
    }
}

/// How many stages a tick has.
pub const STAGES: usize = 16;

/// The stage that comes behind one, or `None` behind the last. `None` itself
/// stands for before the first.
pub fn next(s: Option<Stage>) -> (r: Option<Stage>)
    ensures
        match s {
            None => r matches Some(n) && place(n) == 0,
            Some(s) => match r {
                Some(n) => place(n) == place(s) + 1,
                None => place(s) == STAGES - 1,
            },
        },
{
    match s {
        None => Some(Stage::Player),
        Some(s) => match s {
            Stage::Player => Some(Stage::Room),
            Stage::Room => Some(Stage::Collisions),
            Stage::Collisions => Some(Stage::Timers),
            Stage::Timers => Some(Stage::Doors),
            Stage::Doors => Some(Stage::Spawners),
            Stage::Spawners => Some(Stage::Updates),
            Stage::Updates => Some(Stage::Jumps),
            Stage::Jumps => Some(Stage::Paths),
            Stage::Paths => Some(Stage::Steps),
            Stage::Steps => Some(Stage::Legs),
            Stage::Legs => Some(Stage::Shots),
            Stage::Shots => Some(Stage::Clocks),
            Stage::Clocks => Some(Stage::Keys),
            Stage::Keys => Some(Stage::Shake),
            Stage::Shake => Some(Stage::Scripts),
            Stage::Scripts => None,
        },
    }
}

/// No two stages have one place, and every place is one of the tick's.
pub proof fn every_stage_has_a_place_of_its_own(a: Stage, b: Stage)
    ensures
        0 <= place(a) < STAGES,
        place(a) == place(b) ==> a == b,
{
}

/// A room is entered before a timer is called, a timer before an update, and a
/// sequence goes on after everything else.
pub proof fn the_order_of_the_handlers(s: Stage)
    ensures
        place(Stage::Room) < place(Stage::Timers) < place(Stage::Updates) < place(Stage::Scripts),
        place(s) <= place(Stage::Scripts),
{
}

/// A tick moves the player first and looks where that is, then at what it came
/// up against; calls the timers, moves the doors, makes what is owed, and
/// updates everything; then lets the walkers jump, look ahead, step and move
/// their legs; then the shots fly, the clocks run down, the keys are struck and
/// the ground shakes; and at last the sequences go on.
pub proof fn the_order_of_a_tick()
    ensures
        place(Stage::Player) == 0,
        place(Stage::Room) == place(Stage::Player) + 1,
        place(Stage::Collisions) == place(Stage::Room) + 1,
        place(Stage::Timers) == place(Stage::Collisions) + 1,
        place(Stage::Doors) == place(Stage::Timers) + 1,
        place(Stage::Spawners) == place(Stage::Doors) + 1,
        place(Stage::Updates) == place(Stage::Spawners) + 1,
        place(Stage::Jumps) == place(Stage::Updates) + 1,
        place(Stage::Paths) == place(Stage::Jumps) + 1,
        place(Stage::Steps) == place(Stage::Paths) + 1,
        place(Stage::Legs) == place(Stage::Steps) + 1,
        place(Stage::Shots) == place(Stage::Legs) + 1,
        place(Stage::Clocks) == place(Stage::Shots) + 1,
        place(Stage::Keys) == place(Stage::Clocks) + 1,
        place(Stage::Shake) == place(Stage::Keys) + 1,
        place(Stage::Scripts) == place(Stage::Shake) + 1,
        STAGES == place(Stage::Scripts) + 1,
{
}

} // verus!
