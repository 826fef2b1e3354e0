//! Doors that open to whoever is near, and blowers.
use crate::anim::Anims;
use crate::measure;
use crate::names::Names;
use crate::world::{Gob, Id, World};
use vstd::prelude::*;

verus! {

pub const OBJ_PROXDOOR1: i64 = 700;

pub const ANIM_OPEN: i64 = 66;

pub const ANIM_CLOSE: i64 = 67;

/// A door's reach: what its scene graph says, or twenty units where that says
/// nought.
pub open spec fn reach(payload: i64) -> i64 {
    if payload == 0 {
        measure::TWENTY
    } else {
        payload
    }
}

/// What a door does: it opens when somebody comes within its reach, and shuts
/// when nobody is any more. `None` is that it does nothing.
pub open spec fn door_step(open: bool, dist: i64, payload: i64) -> Option<i64> {
    let near = dist < reach(payload);
    if near && !open {
        Some(ANIM_OPEN)
    } else if !near && open {
        Some(ANIM_CLOSE)
    } else {
        None
    }
}

/// Is the object a door that works: one with a name that is not locked?
pub open spec fn works<F>(g: Gob<F>, locked: Map<Seq<char>, ()>) -> bool {
    g.kind == OBJ_PROXDOOR1 && g.named() && !locked.contains_key(g.name@)
}

/// What is played after the first `n` objects have been looked at, and how many
/// doors have moved. `at` holds for each object how far off the player is and
/// the first number of its payload.
pub open spec fn doors_after<F>(
    gobs: Seq<Gob<F>>,
    at: Seq<(i64, i64)>,
    locked: Map<Seq<char>, ()>,
    playing: Map<Seq<char>, i64>,
    n: int,
) -> (Map<Seq<char>, i64>, int)
    decreases n,
{
    if n <= 0 {
        (playing, 0)
    } else {
        let (now, moved) = doors_after(gobs, at, locked, playing, n - 1);
        let g = gobs[n - 1];
        if !works(g, locked) {
            (now, moved)
        } else {
            let open = now.contains_key(g.name@) && now[g.name@] == ANIM_OPEN;
            match door_step(open, at[n - 1].0, at[n - 1].1) {
                Some(anim) => (now.insert(g.name@, anim), moved + 1),
                None => (now, moved),
            }
        }
    }
}

/// Let the doors move. How many did comes back.
pub fn prox_doors<F>(
    w: &World<F>,
    at: &Vec<(i64, i64)>,
    locked: &Names<()>,
    anims: &mut Anims,
) -> (moved: usize)
    requires
        w.wf(),
        at@.len() == w.gobs().len(),
    ensures
        (final(anims).playing@, moved as int) == doors_after(
            w.gobs(),
            at@,
            locked@,
            old(anims).playing@,
            w.gobs().len() as int,
        ),
        final(anims).looped@ == old(anims).looped@,
        final(anims).done@ == old(anims).done@,
{
    let n: usize = w.len();
    let mut moved: usize = 0;
    let mut i: usize = 0;
    while i < n
        invariant
            n == w.gobs().len(),
            n <= 0x1_0000_0000,
            at@.len() == n,
            i <= n,
            moved <= i,
            (anims.playing@, moved as int) == doors_after(
                w.gobs(),
                at@,
                locked@,
                old(anims).playing@,
                i as int,
            ),
            anims.looped@ == old(anims).looped@,
            anims.done@ == old(anims).done@,
        decreases n - i,
    {
        if let Some(g) = w.get(i as Id) {
            let name = g.name.as_str();
            if g.kind == OBJ_PROXDOOR1 && !name.is_empty() && !locked.has(name) {
                let open: bool = match anims.playing(name) {
                    Some(a) => a == ANIM_OPEN,
                    None => false,
                };
                let (dist, payload) = at[i];
                let near: bool = dist < (if payload == 0 {
                    measure::TWENTY
                } else {
                    payload
                });
                if near && !open {
                    anims.pose(name, ANIM_OPEN);
                    moved += 1;
                } else if !near && open {
                    anims.pose(name, ANIM_CLOSE);
                    moved += 1;
                }
            }
        }
        i += 1;
    }
    moved
}

/// Lock a door or unlock it. A door that is open when it is locked shuts first;
/// one that is unlocked waits for whoever comes.
pub fn lock(name: &str, on: bool, locked: &mut Names<()>, anims: &mut Anims)
    ensures
        final(locked)@ == (if on {
            old(locked)@.insert(name@, ())
        } else {
            old(locked)@.remove(name@)
        }),
        final(anims).playing@ == (if on && old(anims).up(name@) == Some(ANIM_OPEN) {
            old(anims).playing@.insert(name@, ANIM_CLOSE)
        } else {
            old(anims).playing@
        }),
        final(anims).looped@ == old(anims).looped@,
        final(anims).done@ == old(anims).done@,
{
    if on {
        let open: bool = match anims.playing(name) {
            Some(a) => a == ANIM_OPEN,
            None => false,
        };
        if open {
            anims.pose(name, ANIM_CLOSE);
        }
        locked.insert(name.to_owned(), ());
    } else {
        locked.remove(name);
    }
}

/// A door moves only when somebody crosses its reach: one that has just moved
/// does not move again while nobody does.
pub proof fn a_door_moves_once_a_crossing(open: bool, dist: i64, payload: i64)
    ensures
        match door_step(open, dist, payload) {
            Some(anim) => {
                &&& (anim == ANIM_OPEN) != open
                &&& door_step(anim == ANIM_OPEN, dist, payload) is None
            },
            None => open == (dist < reach(payload)),
        },
{
}

pub const ANIM_ENABLED: i64 = 61;

pub const ANIM_DISABLED: i64 = 62;

/// Switch a blower on or off. It is on until it is switched off.
pub fn switch_blower(name: &str, on: bool, off: &mut Names<()>, anims: &mut Anims)
    ensures
        final(off)@ == (if on {
            old(off)@.remove(name@)
        } else {
            old(off)@.insert(name@, ())
        }),
        final(anims).playing@ == old(anims).playing@.insert(
            name@,
            if on {
                ANIM_ENABLED
            } else {
                ANIM_DISABLED
            },
        ),
        final(anims).looped@ == old(anims).looped@,
        final(anims).done@ == old(anims).done@,
{
    if on {
        off.remove(name);
        anims.pose(name, ANIM_ENABLED);
    } else {
        off.insert(name.to_owned(), ());
        anims.pose(name, ANIM_DISABLED);
    }
}

/// What a blower knows of whoever is in its way. `along` and `back` are how far
/// that is along its axis from where all axes begin and how far the blower is,
/// `end` how far its end is; `aside` is the square of how far it is from the
/// axis, and `wide` the square of the radius.
#[derive(Clone, Copy, Debug, PartialEq, Eq, Structural)]
pub struct Draught {
    pub along: i64,
    pub back: i64,
    pub end: i64,
    pub aside: i64,
    pub wide: i64,
    /// How fast it goes along the axis, and the speed at which the blower stops
    /// pushing.
    pub speed: i64,
    pub strength: i64,
}

/// Which way a blower pushes: on along its axis, back, or not at all. It pushes
/// what is in the tube until that goes as fast as the blower blows.
pub open spec fn push_of(d: Draught) -> i64 {
    if d.along <= d.back || d.end < d.along || d.aside > d.wide {
        0
    } else if d.strength > 0 && d.speed < d.strength {
        1
    } else if d.strength < 0 && d.speed > d.strength {
        (-1) as i64
    } else {
        0
    }
}

/// Which way a blower pushes.
pub fn push(d: &Draught) -> (r: i64)
    ensures
        r == push_of(*d),
{
    if d.along <= d.back || d.end < d.along || d.aside > d.wide {
        0
    } else if d.strength > 0 && d.speed < d.strength {
        1
    } else if d.strength < 0 && d.speed > d.strength {
        -1
    } else {
        0
    }
}

/// A shut door opens once somebody is inside its reach, and an open one shuts
/// once nobody is: its reach is what its scene graph says, and twenty units
/// where that is nought.
pub proof fn a_door_opens_inside_its_reach(dist: i64, payload: i64)
    requires
        payload != 0,
    ensures
        dist < payload ==> door_step(false, dist, payload) == Some(66i64),
        dist < payload ==> door_step(true, dist, payload) is None,
        dist >= payload ==> door_step(true, dist, payload) == Some(67i64),
        dist >= payload ==> door_step(false, dist, payload) is None,
        dist < measure::TWENTY ==> door_step(false, dist, 0) == Some(66i64),
        dist < measure::TWENTY ==> door_step(true, dist, 0) is None,
        dist >= measure::TWENTY ==> door_step(true, dist, 0) == Some(67i64),
        dist >= measure::TWENTY ==> door_step(false, dist, 0) is None,
{
}

/// One more object moves exactly if it is a door with a name that is not
/// locked, and somebody has come inside its reach while it was shut or left it
/// while it was open; then it plays what opens or shuts it.
pub proof fn every_working_door_moves<F>(
    gobs: Seq<Gob<F>>,
    at: Seq<(i64, i64)>,
    locked: Map<Seq<char>, ()>,
    playing: Map<Seq<char>, i64>,
    n: int,
)
    requires
        0 <= n < gobs.len(),
    ensures
        doors_after(gobs, at, locked, playing, 0) == (playing, 0int),
        ({
            let (now, moved) = doors_after(gobs, at, locked, playing, n);
            let name = gobs[n].name@;
            let door = gobs[n].kind == 700 && name.len() > 0 && !locked.contains_key(name);
            let open = now.contains_key(name) && now[name] == 66;
            let near = (at[n].1 != 0 && at[n].0 < at[n].1) || (at[n].1 == 0 && at[n].0
                < measure::TWENTY);
            &&& door && near && !open ==> doors_after(gobs, at, locked, playing, n + 1) == (
                now.insert(name, 66i64),
                moved + 1,
            )
            &&& door && !near && open ==> doors_after(gobs, at, locked, playing, n + 1) == (
                now.insert(name, 67i64),
                moved + 1,
            )
            &&& !door || near == open ==> doors_after(gobs, at, locked, playing, n + 1) == (
                now,
                moved,
            )
        }),
{
}

/// A blower pushes whatever is in its tube, in front of it, up to its end and
/// no further aside than it is wide, until that goes as fast as it blows: on
/// where it blows on, and back where it sucks.
pub proof fn a_blower_pushes_what_is_in_its_tube(d: Draught)
    ensures
        d.along > d.back && d.along <= d.end && d.aside <= d.wide && 0 < d.strength && d.speed
            < d.strength ==> push_of(d) == 1,
        d.along > d.back && d.along <= d.end && d.aside <= d.wide && d.strength < 0 && d.speed
            > d.strength ==> push_of(d) == -1,
        d.strength == 0 || (d.strength > 0 && d.speed >= d.strength) || (d.strength < 0 && d.speed
            <= d.strength) ==> push_of(d) == 0,
        d.along <= d.back || d.along > d.end || d.aside > d.wide ==> push_of(d) == 0,
{
}

} // verus!
