//! How a body stands, falls, lands and meets walls.
//!
//! Where a body is, and whether something is in its way, is worked out by
//! whoever has the collision world. What follows from the answers is here: when
//! a body may jump, when it falls, when it has landed and how hard that was,
//! which way round a wall it takes, and what it has been up against.
use crate::measure;
use vstd::prelude::*;

verus! {

/// What costs nothing to land at: up to so many units a second.
pub const LAND_SAFE: i64 = measure::FORTY_FIVE;

/// What a landing costs, in hitpoints. `speed` is how fast the fall was, and
/// `steps` how many whole steps of five units a second it was over what is
/// safe: each costs ten.
pub fn fall_damage(speed: i64, steps: i64) -> (hurt: i64)
    requires
        0 <= steps,
        steps * 10 <= i64::MAX,
    ensures
        hurt == (if speed <= LAND_SAFE {
            0
        } else {
            steps * 10
        }),
{
    if speed <= LAND_SAFE {
        0
    } else {
        steps * 10
    }
}

/// How a body stands, and what it has met.
pub struct Stance {
    pub on_ground: bool,
    /// It flies: it has no floor and does not fall.
    pub flying: bool,
    /// Frames on which it walked against something.
    pub hits: usize,
    /// Frames that it ended inside something. There should be none.
    pub inside: usize,
    /// What it is against on this frame: what it walked into and what it stands
    /// on, each once and in order.
    pub touching: Vec<usize>,
}

/// What is held down on a frame.
#[derive(Clone, Copy, Debug, PartialEq, Eq, Structural)]
pub struct Held {
    pub forward: bool,
    pub backward: bool,
    pub left: bool,
    pub right: bool,
    pub jump: bool,
}

/// Which of two opposite ways is meant: one for the first, one below nought for
/// the other, and nought where both are held or neither.
pub open spec fn way(first: bool, other: bool) -> int {
    if first == other {
        0
    } else if first {
        1
    } else {
        -1
    }
}

impl Held {
    /// How far ahead and how far to the right is meant, and whether the body is
    /// pushed as one that stands on the ground: on the frame of a jump it is in
    /// the air already.
    pub fn intent(&self, on_ground: bool) -> (r: (i32, i32, bool))
        ensures
            r.0 == way(self.forward, self.backward),
            r.1 == way(self.right, self.left),
            r.2 == (on_ground && !self.jump),
    {
        let ahead: i32 = Held::lean(self.forward, self.backward);
        let side: i32 = Held::lean(self.right, self.left);
        (ahead, side, on_ground && !self.jump)
    }

    fn lean(first: bool, other: bool) -> (r: i32)
        ensures
            r == way(first, other),
    {
        if first == other {
            0
        } else if first {
            1
        } else {
            -1
        }
    }
}

/// How a body comes to rest.
#[derive(Clone, Copy, Debug, PartialEq, Eq, Structural)]
pub enum Rest {
    /// Its feet are in the ground: it is lifted out, and stands.
    Lands,
    /// The ground is a step further down: it goes down, and stands.
    Steps,
    /// There is nothing under it.
    Falls,
}

/// How a body comes to rest: `footed` says that its feet are in something, and
/// `step` that there is ground no more than a step further down.
pub open spec fn rest_of(on_ground: bool, footed: bool, step: bool) -> Rest {
    if footed {
        Rest::Lands
    } else if on_ground && step {
        Rest::Steps
    } else {
        Rest::Falls
    }
}

/// A list in order with one more value in it, unless it is there.
pub open spec fn joined(s: Seq<usize>, x: Option<usize>) -> Set<usize> {
    match x {
        Some(x) => s.to_set().insert(x),
        None => s.to_set(),
    }
}

fn join(v: &mut Vec<usize>, x: Option<usize>)
    requires
        old(v)@.len() <= 1,
    ensures
        final(v)@.to_set() =~= joined(old(v)@, x),
        forall|i: int, j: int| 0 <= i < j < final(v)@.len() ==> final(v)@[i] < final(v)@[j],
        final(v)@.len() <= 2,
{
    if let Some(x) = x {
        let ghost was = v@;
        if v.len() == 0 {
            v.push(x);
            assert(v@[0] == x);
        } else if v[0] < x {
            v.push(x);
            assert(v@[0] == was[0] && v@[1] == x);
        } else if v[0] > x {
            v.insert(0, x);
            assert(v@[0] == x && v@[1] == was[0]);
        } else {
            assert(was.contains(x)) by {
                assert(was[0] == x);
            }
        }
        assert forall|y: usize| #[trigger] v@.to_set().contains(y) <==> joined(
            was,
            Some(x),
        ).contains(y) by {
            if v@.contains(y) {
                let k = choose|k: int| 0 <= k < v@.len() && v@[k] == y;
                if y != x {
                    assert(was[0] == y);
                }
            }
            if was.contains(y) {
                let k = choose|k: int| 0 <= k < was.len() && was[k] == y;
                assert(was[0] == y);
                assert(v@.contains(y)) by {
                    if v@[0] != y {
                        assert(v@[1] == y);
                    }
                }
            }
            if y == x {
                assert(v@.contains(x)) by {
                    if v@[0] != x {
                        assert(v@[1] == x);
                    }
                }
            }
        }
    }
}

impl Stance {
    /// In the air, and against nothing yet.
    pub fn new(flying: bool) -> (s: Stance)
        ensures
            !s.on_ground,
            s.flying == flying,
            s.hits == 0,
            s.inside == 0,
            s.touching@.len() == 0,
    {
        Stance { on_ground: false, flying, hits: 0, inside: 0, touching: Vec::new() }
    }

    /// A frame begins. `ahead` is what stands where the body wants to go.
    pub fn begin(&mut self, ahead: Option<usize>)
        requires
            old(self).hits < usize::MAX,
        ensures
            final(self).touching@ == (match ahead {
                Some(t) => seq![t],
                None => Seq::<usize>::empty(),
            }),
            final(self).hits == old(self).hits + (if ahead is Some {
                1int
            } else {
                0
            }),
            final(self).on_ground == old(self).on_ground,
            final(self).flying == old(self).flying,
            final(self).inside == old(self).inside,
    {
        self.touching = Vec::new();
        if let Some(t) = ahead {
            self.hits = self.hits + 1;
            self.touching.push(t);
        }
        assert(self.touching@ =~= (match ahead {
            Some(t) => seq![t],
            None => Seq::<usize>::empty(),
        }));
    }

    /// Jump, where it is asked for and there is ground to jump from. Whether it
    /// does.
    pub fn jump(&mut self, asked: bool) -> (r: bool)
        ensures
            r == (old(self).on_ground && asked),
            final(self).on_ground == (old(self).on_ground && !asked),
            final(self).flying == old(self).flying,
            final(self).hits == old(self).hits,
            final(self).inside == old(self).inside,
            final(self).touching == old(self).touching,
    {
        if self.on_ground && asked {
            self.on_ground = false;
            true
        } else {
            false
        }
    }

    /// Be pushed up by something outside, so that it now rises at `speed`. A
    /// body that rises has left the ground.
    pub fn blown(&mut self, speed: i64)
        ensures
            final(self).on_ground == (old(self).on_ground && speed <= 0),
            final(self).flying == old(self).flying,
            final(self).hits == old(self).hits,
            final(self).inside == old(self).inside,
            final(self).touching == old(self).touching,
    {
        if speed > 0 {
            self.on_ground = false;
        }
    }

    /// Does the body fall? Only where nothing is under it, and never one that
    /// flies.
    pub fn falls(&self) -> (r: bool)
        ensures
            r == (!self.on_ground && !self.flying),
    {
        !self.on_ground && !self.flying
    }

    /// Come to rest. How, and whether that is a landing: it is one only where
    /// the body was in the air.
    pub fn settle(&mut self, footed: bool, step: bool) -> (r: (Rest, bool))
        ensures
            r.0 == rest_of(old(self).on_ground, footed, step),
            r.1 == (r.0 == Rest::Lands && !old(self).on_ground),
            final(self).on_ground == (r.0 != Rest::Falls),
            final(self).flying == old(self).flying,
            final(self).hits == old(self).hits,
            final(self).inside == old(self).inside,
            final(self).touching == old(self).touching,
    {
        if footed {
            let landed: bool = !self.on_ground;
            self.on_ground = true;
            return (Rest::Lands, landed);
        }
        if self.on_ground && step {
            return (Rest::Steps, false);
        }
        self.on_ground = false;
        (Rest::Falls, false)
    }

    /// A frame of a body that flies ends: `against` is what it is in.
    pub fn end_flight(&mut self, against: Option<usize>)
        requires
            old(self).inside < usize::MAX,
            old(self).touching@.len() <= 1,
        ensures
            !final(self).on_ground,
            final(self).inside == old(self).inside + (if against is Some {
                1int
            } else {
                0
            }),
            final(self).touching@.to_set() =~= joined(old(self).touching@, against),
            forall|i: int, j: int|
                0 <= i < j < final(self).touching@.len() ==> final(self).touching@[i]
                    < final(self).touching@[j],
            final(self).flying == old(self).flying,
            final(self).hits == old(self).hits,
    {
        self.on_ground = false;
        if against.is_some() {
            self.inside = self.inside + 1;
        }
        join(&mut self.touching, against);
    }

    /// A frame of a body that walks ends: `buried` says that it is in
    /// something, and `under` what it stands on.
    pub fn end(&mut self, buried: bool, under: Option<usize>)
        requires
            old(self).inside < usize::MAX,
            old(self).touching@.len() <= 1,
        ensures
            final(self).inside == old(self).inside + (if buried {
                1int
            } else {
                0
            }),
            final(self).touching@.to_set() =~= joined(old(self).touching@, under),
            forall|i: int, j: int|
                0 <= i < j < final(self).touching@.len() ==> final(self).touching@[i]
                    < final(self).touching@[j],
            final(self).on_ground == old(self).on_ground,
            final(self).flying == old(self).flying,
            final(self).hits == old(self).hits,
    {
        if buried {
            self.inside = self.inside + 1;
        }
        join(&mut self.touching, under);
    }
}

/// Which of the ways round a wall a body takes: the first that is free. One
/// that is stuck in something already takes the first of all, to get out.
pub fn way_round(stuck: bool, free: &Vec<bool>) -> (r: Option<usize>)
    ensures
        match r {
            Some(i) => {
                &&& i < free@.len()
                &&& stuck ==> i == 0
                &&& !stuck ==> free@[i as int] && forall|j: int| 0 <= j < i ==> !free@[j]
            },
            None => forall|j: int| 0 <= j < free@.len() ==> !stuck && !free@[j],
        },
{
    let n: usize = free.len();
    let mut i: usize = 0;
    while i < n
        invariant
            n == free@.len(),
            i <= n,
            i > 0 ==> !stuck,
            forall|j: int| 0 <= j < i ==> !free@[j],
        decreases n - i,
    {
        if stuck || free[i] {
            return Some(i);
        }
        i += 1;
    }
    None
}

/// Does a body give its sideways move back? Only where it would end in
/// something, and would not where it came from.
pub fn gives_back(buried: bool, buried_before: bool) -> (r: bool)
    ensures
        r == (buried && !buried_before),
{
    buried && !buried_before
}

/// A body left alone on the ground rests: it stays there, does not fall, and no
/// frame of it is a landing.
pub proof fn a_resting_body_rests(footed: bool, step: bool)
    requires
        footed || step,
    ensures
        rest_of(true, footed, step) != Rest::Falls,
{
}

/// Nothing lands in the air: a body whose feet are in nothing falls on, however
/// near the ground is, until it is in it.
pub proof fn a_falling_body_lands_only_in_the_ground(footed: bool, step: bool)
    ensures
        rest_of(false, footed, step) == (if footed {
            Rest::Lands
        } else {
            Rest::Falls
        }),
{
}

/// Two opposite ways that are both held, or neither, come to nothing; else the
/// one that is held is gone.
pub proof fn opposite_ways_cancel(held: bool)
    ensures
        way(held, held) == 0,
        way(true, false) == 1,
        way(false, true) == -1,
{
}

/// A body whose feet are in something stands, wherever it was; one that stood
/// goes down a step to stand; and any other falls.
pub proof fn a_body_rests_on_what_is_under_it(on_ground: bool, step: bool)
    ensures
        rest_of(on_ground, true, step) == Rest::Lands,
        rest_of(true, false, true) == Rest::Steps,
        rest_of(false, false, step) == Rest::Falls,
        rest_of(on_ground, false, false) == Rest::Falls,
        LAND_SAFE == measure::of_whole(45),
{
}

/// What a body is against is all of what it was and the one more, if there is
/// one.
pub proof fn one_more_is_touched(s: Seq<usize>, x: usize, y: usize)
    ensures
        joined(s, Some(x)).contains(y) <==> y == x || s.contains(y),
        joined(s, None).contains(y) <==> s.contains(y),
{
}

} // verus!
