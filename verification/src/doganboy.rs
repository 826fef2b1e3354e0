//! The doganboy's tree of choices, which most of what fights runs.
//!
//! The tree is asked again and again, and what it decided before comes back as
//! what the walker remembers: the clock it waits on, the rounds left in its
//! burst, whether it runs away and whether it is on its way home.
use crate::brain;
use crate::brain::{retreat, Clock, Look, Orders, BACK, RUN, STILL};
use crate::crowd::{Homing, ANIM_SCARED};
use crate::measure;
use crate::rand;
use crate::rand::{roll_beats, roll_meets, Odds, Random};
use crate::tables;
use vstd::prelude::*;

verus! {

pub const CONEHEAD: i64 = 203;

pub const GRUNT: i64 = 202;

pub const INVISOGRUNT: i64 = 219;

pub const DOGANBOY: i64 = 207;

/// What a doganboy throws.
pub const DBGRENADE: i64 = 417;

pub const ANIM_TAUNT0: i64 = 0x70;

pub const ANIM_TAUNT1: i64 = 0x71;

pub const ANIM_THROW: i64 = 57;

/// How a type is disposed: the chances that its choices hang on, and the rounds
/// of its burst.
#[derive(Clone, Copy, Debug, PartialEq, Eq, Structural)]
pub struct Temper {
    pub act: Odds,
    pub taunt: Odds,
    pub close: Odds,
    pub scared: Odds,
    pub burst: i64,
    /// How near it lets its target come, how far it shoots, and from how near
    /// it leaps.
    pub near: i64,
    pub reach: i64,
    pub leap: i64,
}

/// What a walker remembers and senses when it is asked.
pub struct Senses {
    pub kind: i64,
    pub hitpoints: i16,
    /// It has been told never to move.
    pub turret: bool,
    /// What is left on the clock.
    pub clock: i64,
    /// How far off its target is.
    pub dist: i64,
    /// Rounds left in its burst.
    pub left: i64,
    /// It is running.
    pub running: bool,
    /// It runs away, or makes for a place.
    pub fleeing: bool,
    pub homing: bool,
    /// The place it makes for is its pen, and it is back within half its leash
    /// of the place it makes for.
    pub homing_pen: bool,
    pub back: bool,
    /// It has a pen and is past its leash.
    pub out: bool,
    /// Its type may leap, and its own chance of it.
    pub may_leap: bool,
    pub leaps: Odds,
    /// It looks straight at its target.
    pub square: bool,
    /// It is hurt enough to be scared.
    pub hurt: bool,
    /// How its type is disposed, where it is at all.
    pub temper: Option<Temper>,
    /// The animations that its model has, with a length.
    pub shows: Vec<i64>,
}

/// What a walker does.
#[derive(Clone, Copy, Debug, PartialEq, Eq)]
pub struct Step {
    pub orders: Orders,
    pub homing: Homing,
    /// It runs away from now on, or it does not any more.
    pub fleeing: Option<bool>,
    /// It throws a grenade.
    pub throws: bool,
}

/// How the tree comes out.
#[derive(Clone, Copy, Debug, PartialEq, Eq)]
pub enum Fight {
    /// With what the walker does.
    Does(Step),
    /// With a leap, which lands past the target by the share of the leap that
    /// this draw says. Where the leap comes off the walker stands still in the
    /// step; where it does not, [`stays`] goes on from the step.
    Leaps(u32, Step),
}

impl Senses {
    /// The clock has run out.
    pub open spec fn cool(self) -> bool {
        self.clock <= 0
    }

    /// Its target is nearer than its type likes. A type that has no temper likes
    /// whatever is no nearer than nought.
    pub open spec fn crowded(self) -> bool {
        self.dist < match self.temper {
            Some(t) => t.near,
            None => 0i64,
        }
    }

    /// Its target is inside the reach of its type.
    pub open spec fn in_reach(self) -> bool {
        self.dist < match self.temper {
            Some(t) => t.reach,
            None => 0i64,
        }
    }

    /// Its target is in the band in which grenades are thrown: from
    /// twenty-five units up to forty-five.
    pub open spec fn in_band(self) -> bool {
        measure::TWENTY_FIVE <= self.dist < measure::FORTY_FIVE
    }

    fn is_crowded(&self) -> (r: bool)
        ensures
            r == self.crowded(),
    {
        self.dist < match self.temper {
            Some(t) => t.near,
            None => 0i64,
        }
    }

    fn is_in_reach(&self) -> (r: bool)
        ensures
            r == self.in_reach(),
    {
        self.dist < match self.temper {
            Some(t) => t.reach,
            None => 0i64,
        }
    }

    /// May it choose something new?
    pub open spec fn choosing(self) -> bool {
        self.cool() && self.left <= 0 && !self.turret
    }

    /// Does its model have this animation, with a length?
    pub open spec fn has(self, anim: i64) -> bool {
        self.shows@.contains(anim)
    }

    fn shows_it(&self, anim: i64) -> (r: bool)
        ensures
            r == self.has(anim),
    {
        let mut i: usize = 0;
        while i < self.shows.len()
            invariant
                i <= self.shows.len(),
                forall|j: int| 0 <= j < i ==> self.shows@[j] != anim,
            decreases self.shows.len() - i,
        {
            if self.shows[i] == anim {
                assert(self.shows@[i as int] == anim);
                return true;
            }
            i += 1;
        }
        false
    }
}

// ---------------------------------------------------------------------------
// The tree, branch by branch
// ---------------------------------------------------------------------------
/// What is settled before anything is chosen: where it looks, and whether it is
/// done running away or going home. A walker that ran out of clock has
/// forgotten both, and one that is back within half its leash has its clock
/// stopped.
pub open spec fn begun(s: Senses) -> Step {
    let look = if !s.cool() && s.homing {
        Look::Home
    } else if !s.cool() && s.fleeing {
        Look::Away
    } else {
        Look::Target
    };
    let home = !s.cool() && s.homing && s.back;
    Step {
        orders: Orders {
            look,
            clock: if home {
                Clock::Tenths(0)
            } else {
                Clock::Leave
            },
            ..Orders::quiet()
        },
        homing: if s.cool() || home {
            Homing::Drop
        } else {
            Homing::Keep
        },
        fleeing: if s.cool() {
            Some(false)
        } else {
            None
        },
        throws: false,
    }
}

/// Does it still make for its pen?
pub open spec fn on_its_way(s: Senses) -> bool {
    !s.cool() && s.homing && !s.back && s.homing_pen
}

/// Turning for home.
pub open spec fn homeward(b: Step) -> Step {
    Step {
        orders: Orders {
            look: Look::Home,
            gait: Some(RUN),
            clock: Clock::Tenths(30),
            avoid: true,
            ..b.orders
        },
        homing: Homing::Pen,
        ..b
    }
}

/// Taking to its heels.
pub open spec fn flees(b: Step, draw: u32) -> Step {
    Step { orders: brain::flight(draw), fleeing: Some(true), ..b }
}

/// Going at the target.
pub open spec fn advances(b: Step) -> Step {
    Step {
        orders: Orders {
            gait: Some(RUN),
            clock: Clock::Tenths(30),
            avoid: true,
            ..b.orders
        },
        ..b
    }
}

/// The head of the tree, up to the leap. `None` for the step means that the
/// choosing goes on.
pub open spec fn head(s: Senses, d: rand::Drawn) -> (Option<Fight>, rand::Drawn) {
    let b = begun(s);
    if !s.cool() && s.running {
        (Some(Fight::Does(b)), d)
    } else if s.out && !s.turret && !on_its_way(s) {
        (Some(Fight::Does(homeward(b))), d)
    } else if s.temper is None || !s.choosing() {
        (None, d)
    } else if tables::limps(s.kind, s.hitpoints) {
        if s.temper->Some_0.act.meets(d.head()) {
            (Some(Fight::Does(flees(b, d.after(1).head()))), d.after(2))
        } else {
            (None, d.after(1))
        }
    } else if !s.may_leap {
        (None, d)
    } else if !s.leaps.beats(d.head()) || s.dist >= s.temper->Some_0.leap {
        (None, d.after(1))
    } else if !s.square {
        (Some(Fight::Does(b)), d.after(1))
    } else {
        (Some(Fight::Leaps(d.after(1).head(), b)), d.after(2))
    }
}

/// Does it go at its target? Out of reach one roll says so; inside it takes
/// three, and an invisogrunt never does.
pub open spec fn advance(s: Senses, t: Temper, d: rand::Drawn) -> (bool, rand::Drawn) {
    if !s.choosing() || s.crowded() {
        (false, d)
    } else if !s.in_reach() {
        (t.act.beats(d.head()), d.after(1))
    } else if !t.act.meets(d.head()) || s.kind == INVISOGRUNT {
        (false, d.after(1))
    } else if t.taunt.beats(d.after(1).head()) {
        (false, d.after(2))
    } else {
        (!t.close.beats(d.after(2).head()), d.after(3))
    }
}

/// The taunt that a roll picks.
pub open spec fn taunt(kind: i64, draw: u32) -> i64 {
    if kind == GRUNT || kind == INVISOGRUNT {
        (ANIM_TAUNT0 - (draw * 3) / (rand::WHOLE as int)) as i64
    } else if draw * 2 < rand::WHOLE {
        ANIM_TAUNT1
    } else {
        ANIM_TAUNT0
    }
}

/// What a walker that may choose shows: that it is scared, that it runs away
/// instead, a taunt, or nothing.
pub enum Show {
    Nothing,
    Flees(u32),
    Plays(i64),
}

pub open spec fn show(s: Senses, t: Temper, d: rand::Drawn) -> (Show, rand::Drawn) {
    let one = if s.hurt {
        d.after(1)
    } else {
        d
    };
    if s.hurt && t.scared.beats(d.head()) {
        if s.turret || s.kind != CONEHEAD {
            (Show::Plays(ANIM_SCARED), one)
        } else if one.head() * 2 < rand::WHOLE {
            (Show::Flees(one.after(1).head()), one.after(2))
        } else {
            (Show::Plays(ANIM_SCARED), one.after(1))
        }
    } else if t.taunt.beats(one.head()) {
        (Show::Plays(taunt(s.kind, one.after(1).head())), one.after(2))
    } else {
        (Show::Nothing, one.after(1))
    }
}

/// Firing: with rounds left one is spent, and the last of a doganboy's may be a
/// grenade; without, a burst is loaded if the target is in reach. The roll for
/// the grenade is made with every round.
pub open spec fn fires(s: Senses, b: Step, d: rand::Drawn) -> (Step, rand::Drawn) {
    if !s.cool() {
        (b, d)
    } else if s.left > 0 {
        let spent = Orders {
            rounds: Some((s.left - 1) as i64),
            clock: Clock::Interval,
            ..b.orders
        };
        if s.kind == DOGANBOY && s.left == 1 && s.in_band() && d.head() * 10 < 7 * rand::WHOLE {
            (
                Step { orders: Orders { play: Some(ANIM_THROW), ..spent }, throws: true, ..b },
                d.after(1),
            )
        } else {
            (
                Step { orders: Orders { play: Some(brain::ANIM_SHOOT), ..spent }, ..b },
                d.after(1),
            )
        }
    } else if s.in_reach() && s.temper is Some && s.temper->Some_0.burst > 0 {
        (
            Step {
                orders: Orders {
                    rounds: Some(s.temper->Some_0.burst),
                    clock: Clock::Interval,
                    ..b.orders
                },
                ..b
            },
            d,
        )
    } else {
        (b, d)
    }
}

/// Giving ground: a crowded walker off its clock runs away on two rolls, and
/// otherwise backs off, which costs it three seconds. Who does neither stands.
pub open spec fn gives_ground(s: Senses, b: Step, d: rand::Drawn) -> (Step, rand::Drawn) {
    let back = Step {
        orders: Orders { gait: Some(BACK), clock: Clock::Tenths(30), ..b.orders },
        ..b
    };
    if !s.crowded() || !s.cool() || s.turret {
        (Step { orders: Orders { gait: Some(STILL), ..b.orders }, ..b }, d)
    } else if s.temper is None {
        (back, d)
    } else if !s.temper->Some_0.act.meets(d.head()) || s.kind == INVISOGRUNT {
        (back, d.after(1))
    } else if !s.temper->Some_0.scared.meets(d.after(1).head()) {
        (back, d.after(2))
    } else {
        (
            Step {
                orders: Orders {
                    rounds: b.orders.rounds,
                    play: b.orders.play,
                    ..brain::flight(d.after(2).head())
                },
                fleeing: Some(true),
                ..b
            },
            d.after(3),
        )
    }
}

/// The tail of the tree: the burst, and then the ground it gives. A walker that
/// throws does nothing about the ground.
pub open spec fn tail(s: Senses, b: Step, d: rand::Drawn) -> (Step, rand::Drawn) {
    let (f, after) = fires(s, b, d);
    if f.throws {
        (f, after)
    } else {
        gives_ground(s, f, after)
    }
}

/// What follows the leap: the advance, the show, and the tail.
pub open spec fn rest(s: Senses, b: Step, d: rand::Drawn) -> (Step, rand::Drawn) {
    if s.temper is None {
        tail(s, b, d)
    } else {
        let t = s.temper->Some_0;
        let (go, d1) = advance(s, t, d);
        if go {
            (advances(b), d1)
        } else if !s.cool() || s.left > 0 {
            tail(s, b, d1)
        } else {
            let (shown, d2) = show(s, t, d1);
            match shown {
                Show::Flees(draw) => (flees(b, draw), d2),
                Show::Plays(anim) if s.has(anim) => (
                    Step {
                        orders: Orders {
                            play: Some(anim),
                            clock: Clock::Length(anim),
                            gait: Some(STILL),
                            ..b.orders
                        },
                        ..b
                    },
                    d2,
                ),
                _ => tail(s, b, d2),
            }
        }
    }
}

/// The whole tree. `lands` says whether the leap comes off, where it comes to
/// one.
pub open spec fn tree(s: Senses, lands: bool, d: rand::Drawn) -> (Step, rand::Drawn) {
    let (h, d1) = head(s, d);
    match h {
        Some(Fight::Does(step)) => (step, d1),
        Some(Fight::Leaps(_, b)) => if lands {
            (Step { orders: Orders { gait: Some(STILL), ..b.orders }, ..b }, d1)
        } else {
            rest(s, b, d1)
        },
        None => rest(s, begun(s), d1),
    }
}

// ---------------------------------------------------------------------------
// Asking it
// ---------------------------------------------------------------------------
fn begin(s: &Senses) -> (r: Step)
    ensures
        r == begun(*s),
{
    let look = if s.clock > 0 && s.homing {
        Look::Home
    } else if s.clock > 0 && s.fleeing {
        Look::Away
    } else {
        Look::Target
    };
    let home: bool = s.clock > 0 && s.homing && s.back;
    let clock = if home {
        Clock::Tenths(0)
    } else {
        Clock::Leave
    };
    let homing = if s.clock <= 0 || home {
        Homing::Drop
    } else {
        Homing::Keep
    };
    let fleeing: Option<bool> = if s.clock <= 0 {
        Some(false)
    } else {
        None
    };
    Step { orders: Orders { look, clock, ..Orders::none() }, homing, fleeing, throws: false }
}

fn may_advance(s: &Senses, t: &Temper, random: &mut Random) -> (r: bool)
    ensures
        (r, final(random)@) == advance(*s, *t, old(random)@),
{
    if !(s.clock <= 0 && s.left <= 0 && !s.turret) || s.is_crowded() {
        return false;
    }
    if !s.is_in_reach() {
        return roll_beats(random, &t.act);
    }
    if !roll_meets(random, &t.act) || s.kind == INVISOGRUNT {
        return false;
    }
    if roll_beats(random, &t.taunt) {
        return false;
    }
    !roll_beats(random, &t.close)
}

fn pick_taunt(kind: i64, random: &mut Random) -> (r: i64)
    ensures
        r == taunt(kind, old(random)@.head()),
        final(random)@ == old(random)@.after(1),
{
    let draw: u32 = random.next_u32();
    if kind == GRUNT || kind == INVISOGRUNT {
        let third: u64 = (draw as u64) * 3 / (rand::WHOLE as u64);
        assert(third <= 3) by (nonlinear_arith)
            requires
                third == (draw * 3) / 0xffff_ffff,
                draw <= 0xffff_ffff,
        ;
        return ANIM_TAUNT0 - third as i64;
    }
    if (draw as u64) * 2 < rand::WHOLE as u64 {
        ANIM_TAUNT1
    } else {
        ANIM_TAUNT0
    }
}

fn pick_show(s: &Senses, t: &Temper, random: &mut Random) -> (r: Show)
    ensures
        (r, final(random)@) == show(*s, *t, old(random)@),
{
    let scared: bool = s.hurt && roll_beats(random, &t.scared);
    if scared {
        if s.turret || s.kind != CONEHEAD {
            return Show::Plays(ANIM_SCARED);
        }
        let draw: u32 = random.next_u32();
        if (draw as u64) * 2 < rand::WHOLE as u64 {
            return Show::Flees(random.next_u32());
        }
        return Show::Plays(ANIM_SCARED);
    }
    if roll_beats(random, &t.taunt) {
        return Show::Plays(pick_taunt(s.kind, random));
    }
    Show::Nothing
}

fn fire(s: &Senses, b: Step, random: &mut Random) -> (r: Step)
    ensures
        (r, final(random)@) == fires(*s, b, old(random)@),
{
    if s.clock > 0 {
        return b;
    }
    if s.left > 0 {
        let spent = Orders { rounds: Some(s.left - 1), clock: Clock::Interval, ..b.orders };
        let draw: u32 = random.next_u32();
        if s.kind == DOGANBOY && s.left == 1 && measure::TWENTY_FIVE <= s.dist && s.dist < measure::FORTY_FIVE && (draw as u64) * 10 < 7 * (
        rand::WHOLE as u64) {
            return Step {
                orders: Orders { play: Some(ANIM_THROW), ..spent },
                throws: true,
                ..b
            };
        }
        return Step { orders: Orders { play: Some(brain::ANIM_SHOOT), ..spent }, ..b };
    }
    if let Some(t) = s.temper {
        if s.is_in_reach() && t.burst > 0 {
            let orders = Orders { rounds: Some(t.burst), clock: Clock::Interval, ..b.orders };
            return Step { orders, ..b };
        }
    }
    b
}

fn give_ground(s: &Senses, b: Step, random: &mut Random) -> (r: Step)
    ensures
        (r, final(random)@) == gives_ground(*s, b, old(random)@),
{
    if !s.is_crowded() || s.clock > 0 || s.turret {
        return Step { orders: Orders { gait: Some(STILL), ..b.orders }, ..b };
    }
    if let Some(t) = s.temper {
        if roll_meets(random, &t.act) && s.kind != INVISOGRUNT && roll_meets(random, &t.scared) {
            let run = retreat(random);
            let orders = Orders { rounds: b.orders.rounds, play: b.orders.play, ..run };
            return Step { orders, fleeing: Some(true), ..b };
        }
    }
    let orders = Orders { gait: Some(BACK), clock: Clock::Tenths(30), ..b.orders };
    Step { orders, ..b }
}

fn finish(s: &Senses, b: Step, random: &mut Random) -> (r: Step)
    ensures
        (r, final(random)@) == tail(*s, b, old(random)@),
{
    let f = fire(s, b, random);
    if f.throws {
        f
    } else {
        give_ground(s, f, random)
    }
}

/// What a walker does that did not leap, from the step that the tree had come
/// to.
pub fn stays(s: &Senses, b: Step, random: &mut Random) -> (r: Step)
    ensures
        (r, final(random)@) == rest(*s, b, old(random)@),
{
    if let Some(t) = s.temper {
        if may_advance(s, &t, random) {
            let orders = Orders {
                gait: Some(RUN),
                clock: Clock::Tenths(30),
                avoid: true,
                ..b.orders
            };
            return Step { orders, ..b };
        }
        if s.clock <= 0 && s.left <= 0 {
            match pick_show(s, &t, random) {
                Show::Flees(draw) => {
                    let orders = Orders {
                        gait: Some(RUN),
                        look: Look::Away,
                        clock: Clock::Drawn(brain::Wait { draw, times: 3, tenths: 20 }),
                        avoid: true,
                        ..Orders::none()
                    };
                    return Step { orders, fleeing: Some(true), ..b };
                },
                Show::Plays(anim) => {
                    if s.shows_it(anim) {
                        let orders = Orders {
                            play: Some(anim),
                            clock: Clock::Length(anim),
                            gait: Some(STILL),
                            ..b.orders
                        };
                        return Step { orders, ..b };
                    }
                },
                Show::Nothing => {},
            }
        }
    }
    finish(s, b, random)
}

/// What a walker does about its target; without one it stands, and is asked
/// again in three tenths of a second, as [`idles`] has it.
pub fn fight(s: &Senses, random: &mut Random) -> (r: Fight)
    ensures
        ({
            let (h, d1) = head(*s, old(random)@);
            match h {
                Some(f) => r == f && final(random)@ == d1,
                None => {
                    &&& r == Fight::Does(rest(*s, begun(*s), d1).0)
                    &&& final(random)@ == rest(*s, begun(*s), d1).1
                },
            }
        }),
{
    let b = begin(s);
    if s.clock > 0 && s.running {
        return Fight::Does(b);
    }
    let way: bool = s.clock > 0 && s.homing && !s.back && s.homing_pen;
    if s.out && !s.turret && !way {
        let orders = Orders {
            look: Look::Home,
            gait: Some(RUN),
            clock: Clock::Tenths(30),
            avoid: true,
            ..b.orders
        };
        return Fight::Does(Step { orders, homing: Homing::Pen, ..b });
    }
    if let Some(t) = s.temper {
        if s.clock <= 0 && s.left <= 0 && !s.turret {
            if tables::limping(s.kind, s.hitpoints) {
                if roll_meets(random, &t.act) {
                    let orders = retreat(random);
                    return Fight::Does(Step { orders, fleeing: Some(true), ..b });
                }
            } else if s.may_leap && roll_beats(random, &s.leaps) && s.dist < t.leap {
                if !s.square {
                    return Fight::Does(b);
                }
                let draw: u32 = random.next_u32();
                return Fight::Leaps(draw, b);
            }
        }
    }
    Fight::Does(stays(s, b, random))
}

/// What a walker with nothing to fight does.
pub fn idles() -> (o: Orders)
    ensures
        o == (Orders { gait: Some(STILL), clock: Clock::Tenths(3), ..Orders::quiet() }),
{
    Orders { gait: Some(STILL), clock: Clock::Tenths(3), ..Orders::none() }
}

// ---------------------------------------------------------------------------
// What holds of the tree
// ---------------------------------------------------------------------------
/// A turret never moves: whatever it senses it is told to stand or left alone,
/// and it neither leaps nor runs nor goes home nor watches a path.
pub proof fn a_turret_never_moves(s: Senses, lands: bool, d: rand::Drawn)
    requires
        s.turret,
    ensures
        ({
            let step = tree(s, lands, d).0;
            &&& step.orders.gait is None || step.orders.gait == Some(STILL)
            &&& !step.orders.avoid
            &&& step.homing == Homing::Drop || step.homing == Homing::Keep
            &&& step.fleeing != Some(true)
            &&& !(head(s, d).0 matches Some(Fight::Leaps(_, _)))
        }),
{
}

/// Backing off costs three seconds, and only a crowded walker off its clock
/// does it.
pub proof fn giving_ground_costs_three_seconds(s: Senses, lands: bool, d: rand::Drawn)
    ensures
        ({
            let step = tree(s, lands, d).0;
            step.orders.gait == Some(BACK) ==> {
                &&& step.orders.clock == Clock::Tenths(30)
                &&& s.crowded() && s.cool() && !s.turret
                &&& step.orders.look == Look::Target
            }
        }),
{
}

/// Whoever runs watches its path, and is not asked again before its clock has
/// run out.
pub proof fn running_is_watched_and_timed(s: Senses, lands: bool, d: rand::Drawn)
    ensures
        ({
            let step = tree(s, lands, d).0;
            step.orders.gait == Some(RUN) ==> {
                &&& step.orders.avoid
                &&& step.orders.clock == Clock::Tenths(30) || (step.orders.clock matches Clock::Drawn(
                    w,
                ) && w.tenths == 20)
            }
        }),
{
}

/// A walker whose clock still runs does not fire, does not show anything, and
/// does not choose: it draws nothing at all.
pub proof fn a_waiting_walker_draws_nothing(s: Senses, lands: bool, d: rand::Drawn)
    requires
        !s.cool(),
    ensures
        tree(s, lands, d).1 == d,
        tree(s, lands, d).0.orders.play is None,
        tree(s, lands, d).0.orders.rounds is None,
        !tree(s, lands, d).0.throws,
{
}

/// A walker past its leash goes home before it fights: unless it is running
/// already or on its way there, that comes before every choice.
pub proof fn a_penned_walker_goes_home_before_it_fights(s: Senses, lands: bool, d: rand::Drawn)
    requires
        s.out,
        !s.turret,
        s.cool() || !s.running,
        !on_its_way(s),
    ensures
        tree(s, lands, d).0.homing == Homing::Pen,
        tree(s, lands, d).0.orders.gait == Some(RUN),
        tree(s, lands, d).0.orders.look == Look::Home,
        tree(s, lands, d).0.orders.clock == Clock::Tenths(30),
        tree(s, lands, d).1 == d,
{
}

/// Only a doganboy throws, only with its last round, and only in the band; and
/// every round, thrown or shot, is one fewer and starts the wait for the next.
pub proof fn only_a_doganboy_throws_its_last_round(s: Senses, lands: bool, d: rand::Drawn)
    ensures
        ({
            let step = tree(s, lands, d).0;
            &&& step.throws ==> s.kind == DOGANBOY && s.left == 1 && s.in_band() && s.cool()
            &&& step.orders.play == Some(brain::ANIM_SHOOT) || step.throws ==> s.left > 0 && step.orders.rounds == Some((s.left - 1) as i64)
        }),
{
}

/// An invisogrunt never goes at you inside its reach and never runs from you
/// for being crowded.
pub proof fn an_invisogrunt_stands_its_ground(s: Senses, lands: bool, d: rand::Drawn)
    requires
        s.kind == INVISOGRUNT,
        s.in_reach(),
        !s.out,
    ensures
        tree(s, lands, d).0.orders.gait != Some(RUN),
{
}


// ---------------------------------------------------------------------------
// What each choice comes to
// ---------------------------------------------------------------------------
/// What a walker does that has only looked at its target.
pub open spec fn only_looks() -> Step {
    Step {
        orders: Orders {
            gait: None,
            look: Look::Target,
            clock: Clock::Leave,
            rounds: None,
            state: None,
            play: None,
            avoid: false,
        },
        homing: Homing::Drop,
        fleeing: Some(false),
        throws: false,
    }
}

/// What a walker does that runs away for two seconds and up to three more.
pub open spec fn runs_away(draw: u32) -> Step {
    Step {
        orders: Orders {
            gait: Some(RUN),
            look: Look::Away,
            clock: Clock::Drawn(brain::Wait { draw, times: 3, tenths: 20 }),
            rounds: None,
            state: None,
            play: None,
            avoid: true,
        },
        homing: Homing::Drop,
        fleeing: Some(true),
        throws: false,
    }
}

/// A walker of this temper may choose something new: its clock and its burst
/// have run out, nothing nails it down, and it is not past its leash. Whether
/// it runs hurt or leaps has been rolled for with `u` draws, and it does
/// neither.
pub open spec fn chooses(s: Senses, t: Temper, lands: bool, d: rand::Drawn, u: nat) -> bool {
    &&& s.temper == Some(t)
    &&& s.clock <= 0 && s.left <= 0 && !s.turret && !s.out
    &&& if s.kind == 207 && s.hitpoints <= 20 {
        u == 1 && !t.act.meets(d.head())
    } else if !s.may_leap {
        u == 0
    } else if s.leaps.beats(d.head()) && s.dist < t.leap {
        u == 2 && s.square && !lands
    } else {
        u == 1
    }
}

/// Whoever may choose, is not crowded and has its target out of reach goes at
/// it if one roll beats its nerve, and else does not.
pub proof fn out_of_reach_it_advances(s: Senses, t: Temper, lands: bool, d: rand::Drawn, u: nat)
    requires
        chooses(s, t, lands, d, u),
        s.dist >= t.near,
        s.dist >= t.reach,
    ensures
        t.act.beats(d.after(u).head()) ==> tree(s, lands, d) == (
            Step {
                orders: Orders {
                    gait: Some(RUN),
                    clock: Clock::Tenths(30),
                    avoid: true,
                    ..only_looks().orders
                },
                ..only_looks()
            },
            d.after(u + 1),
        ),
        !t.act.beats(d.after(u).head()) ==> tree(s, lands, d).0.orders.clock != Clock::Tenths(30),
{
}

/// Whoever may choose, is not crowded and has its target in reach goes at it if
/// three rolls have it so; but an invisogrunt does not.
pub proof fn in_reach_it_advances(s: Senses, t: Temper, lands: bool, d: rand::Drawn, u: nat)
    requires
        chooses(s, t, lands, d, u),
        t.near <= s.dist < t.reach,
        s.kind != 219,
        t.act.meets(d.after(u).head()),
        !t.taunt.beats(d.after(u + 1).head()),
        !t.close.beats(d.after(u + 2).head()),
    ensures
        tree(s, lands, d) == (
            Step {
                orders: Orders {
                    gait: Some(RUN),
                    clock: Clock::Tenths(30),
                    avoid: true,
                    ..only_looks().orders
                },
                ..only_looks()
            },
            d.after(u + 3),
        ),
{
}

/// A limping walker that may choose runs away if its roll meets its nerve, and
/// nothing else is asked.
pub proof fn a_limping_walker_runs_away(s: Senses, t: Temper, lands: bool, d: rand::Drawn)
    requires
        s.temper == Some(t),
        s.clock <= 0 && s.left <= 0 && !s.turret && !s.out,
        s.kind == 207 && s.hitpoints <= 20,
        t.act.meets(d.head()),
    ensures
        tree(s, lands, d) == (runs_away(d.after(1).head()), d.after(2)),
{
}

/// A walker that may leap, may choose, has rolled for it and is near enough
/// leaps if it looks straight at its target, and looks at it if it does not;
/// where the leap comes off it stands.
pub proof fn a_leap_is_taken(s: Senses, t: Temper, lands: bool, d: rand::Drawn)
    requires
        s.temper == Some(t),
        s.clock <= 0 && s.left <= 0 && !s.turret && !s.out,
        s.kind != 207 || s.hitpoints > 20,
        s.may_leap && s.leaps.beats(d.head()) && s.dist < t.leap,
    ensures
        s.square ==> head(s, d) == (
            Some(Fight::Leaps(d.after(1).head(), only_looks())),
            d.after(2),
        ),
        s.square && lands ==> tree(s, lands, d) == (
            Step {
                orders: Orders { gait: Some(STILL), ..only_looks().orders },
                ..only_looks()
            },
            d.after(2),
        ),
        !s.square ==> tree(s, lands, d) == (only_looks(), d.after(1)),
{
}

/// A walker with this temper, off its clock and with no round left, has come to
/// its show after `v` draws: it may not choose, or is crowded, or did not roll
/// to go at its target.
pub open spec fn holds_back(s: Senses, t: Temper, lands: bool, d: rand::Drawn, v: nat) -> bool {
    ||| s.turret && s.temper == Some(t) && s.clock <= 0 && s.left <= 0 && v == 0
    ||| exists|u: nat|
        {
            &&& #[trigger] chooses(s, t, lands, d, u)
            &&& if s.dist < t.near {
                v == u
            } else if s.dist >= t.reach {
                v == u + 1 && !t.act.beats(d.after(u).head())
            } else if s.kind == 219 || !t.act.meets(d.after(u).head()) {
                v == u + 1
            } else if t.taunt.beats(d.after(u + 1).head()) {
                v == u + 2
            } else {
                v == u + 3 && t.close.beats(d.after(u + 2).head())
            }
        }
}

/// A hurt walker that is scared shows it, if its model can; but a conehead that
/// can move runs away instead, on the toss of a coin.
pub proof fn a_scared_walker_shows_it(s: Senses, t: Temper, lands: bool, d: rand::Drawn, v: nat)
    requires
        holds_back(s, t, lands, d, v),
        s.hurt,
        t.scared.beats(d.after(v).head()),
    ensures
        (s.kind != 203 || s.turret) && s.shows@.contains(ANIM_SCARED) ==> tree(s, lands, d) == (
            Step {
                orders: Orders {
                    play: Some(ANIM_SCARED),
                    clock: Clock::Length(ANIM_SCARED),
                    gait: Some(STILL),
                    ..only_looks().orders
                },
                ..only_looks()
            },
            d.after(v + 1),
        ),
        s.kind == 203 && !s.turret && d.after(v + 1).head() * 2 < 0xffff_ffff ==> tree(s, lands, d)
            == (runs_away(d.after(v + 2).head()), d.after(v + 3)),
        s.kind == 203 && !s.turret && d.after(v + 1).head() * 2 >= 0xffff_ffff && s.shows@.contains(
            ANIM_SCARED,
        ) ==> tree(s, lands, d) == (
            Step {
                orders: Orders {
                    play: Some(ANIM_SCARED),
                    clock: Clock::Length(ANIM_SCARED),
                    gait: Some(STILL),
                    ..only_looks().orders
                },
                ..only_looks()
            },
            d.after(v + 2),
        ),
{
}

/// The taunts are drawn evenly: a grunt has three, and everybody else two.
pub proof fn taunts_are_drawn_evenly(kind: i64, draw: u32)
    ensures
        (kind == 202 || kind == 219) && draw * 3 < 0xffff_ffff ==> taunt(kind, draw) == 0x70,
        (kind == 202 || kind == 219) && 0xffff_ffff <= draw * 3 < 2 * 0xffff_ffff ==> taunt(
            kind,
            draw,
        ) == 0x6f,
        (kind == 202 || kind == 219) && 2 * 0xffff_ffff <= draw * 3 < 3 * 0xffff_ffff ==> taunt(
            kind,
            draw,
        ) == 0x6e,
        kind != 202 && kind != 219 && draw * 2 < 0xffff_ffff ==> taunt(kind, draw) == 0x71,
        kind != 202 && kind != 219 && draw * 2 >= 0xffff_ffff ==> taunt(kind, draw) == 0x70,
{
    if kind == 202 || kind == 219 {
        let q = (draw * 3) / 0xffff_ffff;
        if draw * 3 < 0xffff_ffff {
            assert(q == 0);
        } else if draw * 3 < 2 * 0xffff_ffff {
            assert(q == 1);
        } else if draw * 3 < 3 * 0xffff_ffff {
            assert(q == 2);
        }
    }
}

/// A walker that is not scared taunts if its roll beats its cheek and its model
/// can: the taunt that the next roll picks, which it stands still for.
pub proof fn a_cheeky_walker_taunts(
    s: Senses,
    t: Temper,
    lands: bool,
    d: rand::Drawn,
    v: nat,
    w: nat,
)
    requires
        holds_back(s, t, lands, d, v),
        if s.hurt {
            w == v + 1 && !t.scared.beats(d.after(v).head())
        } else {
            w == v
        },
        t.taunt.beats(d.after(w).head()),
        s.shows@.contains(taunt(s.kind, d.after(w + 1).head())),
    ensures
        ({
            let anim = taunt(s.kind, d.after(w + 1).head());
            tree(s, lands, d) == (
                Step {
                    orders: Orders {
                        play: Some(anim),
                        clock: Clock::Length(anim),
                        gait: Some(STILL),
                        ..only_looks().orders
                    },
                    ..only_looks()
                },
                d.after(w + 2),
            )
        }),
{
}

/// A walker with this temper, off its clock and with no round left, has shown
/// nothing with `x` draws.
pub open spec fn shows_nothing(s: Senses, t: Temper, lands: bool, d: rand::Drawn, x: nat) -> bool {
    exists|v: nat| #[trigger] holds_back(s, t, lands, d, v) && no_show(s, t, d, v, x)
}

/// From the show on, which its `v` draws have come to, the walker shows nothing
/// for the draws up to `x`: whatever it rolls for its model does not have.
pub open spec fn no_show(s: Senses, t: Temper, d: rand::Drawn, v: nat, x: nat) -> bool {
    if s.hurt && t.scared.beats(d.after(v).head()) {
        &&& !s.shows@.contains(ANIM_SCARED)
        &&& if s.kind == 203 && !s.turret {
            x == v + 2 && d.after(v + 1).head() * 2 >= 0xffff_ffff
        } else {
            x == v + 1
        }
    } else {
        let w: nat = if s.hurt {
            v + 1
        } else {
            v
        };
        if t.taunt.beats(d.after(w).head()) {
            x == w + 2 && !s.shows@.contains(taunt(s.kind, d.after(w + 1).head()))
        } else {
            x == w + 1
        }
    }
}

proof fn held_back(s: Senses, t: Temper, lands: bool, d: rand::Drawn, v: nat)
    requires
        holds_back(s, t, lands, d, v),
    ensures
        s.temper == Some(t),
        s.clock <= 0 && s.left <= 0,
        tree(s, lands, d) == (match show(s, t, d.after(v)) {
            (Show::Flees(draw), d2) => (flees(only_looks(), draw), d2),
            (Show::Plays(anim), d2) => if s.has(anim) {
                (
                    Step {
                        orders: Orders {
                            play: Some(anim),
                            clock: Clock::Length(anim),
                            gait: Some(STILL),
                            ..only_looks().orders
                        },
                        ..only_looks()
                    },
                    d2,
                )
            } else {
                tail(s, only_looks(), d2)
            },
            (Show::Nothing, d2) => tail(s, only_looks(), d2),
        }),
{
    assert(begun(s) == only_looks());
    if !s.turret {
        let u = choose|u: nat|
            {
                &&& #[trigger] chooses(s, t, lands, d, u)
                &&& if s.dist < t.near {
                    v == u
                } else if s.dist >= t.reach {
                    v == u + 1 && !t.act.beats(d.after(u).head())
                } else if s.kind == 219 || !t.act.meets(d.after(u).head()) {
                    v == u + 1
                } else if t.taunt.beats(d.after(u + 1).head()) {
                    v == u + 2
                } else {
                    v == u + 3 && t.close.beats(d.after(u + 2).head())
                }
            };
        assert(chooses(s, t, lands, d, u));
        assert(tree(s, lands, d) == rest(s, only_looks(), d.after(u)));
        assert(advance(s, t, d.after(u)) == (false, d.after(v)));
    }
}

proof fn the_tail_is_left(s: Senses, t: Temper, lands: bool, d: rand::Drawn, x: nat)
    requires
        shows_nothing(s, t, lands, d, x),
    ensures
        s.temper == Some(t),
        s.clock <= 0 && s.left <= 0,
        tree(s, lands, d) == tail(s, only_looks(), d.after(x)),
{
    let v = choose|v: nat| #[trigger]
        holds_back(s, t, lands, d, v) && no_show(s, t, d, v, x);
    held_back(s, t, lands, d, v);
}

/// A walker that shows nothing, with its target in reach, loads its burst and
/// waits for its first round. Unless it is crowded it stands for it.
pub proof fn a_burst_is_loaded(s: Senses, t: Temper, lands: bool, d: rand::Drawn, x: nat)
    requires
        shows_nothing(s, t, lands, d, x),
        s.dist >= t.near || s.turret,
    ensures
        s.dist < t.reach && t.burst > 0 ==> tree(s, lands, d) == (
            Step {
                orders: Orders {
                    gait: Some(STILL),
                    rounds: Some(t.burst),
                    clock: Clock::Interval,
                    ..only_looks().orders
                },
                ..only_looks()
            },
            d.after(x),
        ),
        s.dist >= t.reach || t.burst <= 0 ==> tree(s, lands, d) == (
            Step {
                orders: Orders { gait: Some(STILL), ..only_looks().orders },
                ..only_looks()
            },
            d.after(x),
        ),
{
    the_tail_is_left(s, t, lands, d, x);
}

/// A crowded walker that shows nothing backs off for three seconds, or runs
/// away if two rolls have it so; an invisogrunt only backs off. If its target
/// is in reach it loads its burst on the way.
pub proof fn a_crowded_walker_gives_ground(s: Senses, t: Temper, lands: bool, d: rand::Drawn, x: nat)
    requires
        shows_nothing(s, t, lands, d, x),
        s.dist < t.near && !s.turret,
    ensures
        ({
            let loaded = if s.dist < t.reach && t.burst > 0 {
                Some(t.burst)
            } else {
                None
            };
            let back = Step {
                orders: Orders {
                    gait: Some(BACK),
                    clock: Clock::Tenths(30),
                    rounds: loaded,
                    ..only_looks().orders
                },
                ..only_looks()
            };
            &&& s.kind == 219 || !t.act.meets(d.after(x).head()) ==> tree(s, lands, d) == (
                back,
                d.after(x + 1),
            )
            &&& s.kind != 219 && t.act.meets(d.after(x).head()) && !t.scared.meets(
                d.after(x + 1).head(),
            ) ==> tree(s, lands, d) == (back, d.after(x + 2))
            &&& s.kind != 219 && t.act.meets(d.after(x).head()) && t.scared.meets(
                d.after(x + 1).head(),
            ) ==> tree(s, lands, d) == (
                Step {
                    orders: Orders { rounds: loaded, ..runs_away(d.after(x + 2).head()).orders },
                    ..runs_away(d.after(x + 2).head())
                },
                d.after(x + 3),
            )
        }),
{
    the_tail_is_left(s, t, lands, d, x);
}

/// A walker off its clock with rounds left spends one with one roll, and waits
/// for the next: it shoots, or, a doganboy with its last round and its target
/// from twenty-five units off up to forty-five, throws a grenade seven times in
/// ten. A crowded walker that shot backs off in the same breath, or runs.
pub proof fn a_round_is_spent(s: Senses, lands: bool, d: rand::Drawn)
    requires
        s.clock <= 0 && s.left > 0,
        !s.out || s.turret,
    ensures
        ({
            let throws = s.kind == 207 && s.left == 1 && measure::TWENTY_FIVE <= s.dist
                < measure::FORTY_FIVE && d.head() * 10 < 7 * 0xffff_ffff;
            let crowded = !s.turret && s.dist < (match s.temper {
                Some(t) => t.near,
                None => 0,
            });
            let spent = Orders {
                rounds: Some((s.left - 1) as i64),
                clock: Clock::Interval,
                ..only_looks().orders
            };
            let shot = Orders { play: Some(brain::ANIM_SHOOT), ..spent };
            let back = Step {
                orders: Orders { gait: Some(BACK), clock: Clock::Tenths(30), ..shot },
                ..only_looks()
            };
            &&& throws ==> tree(s, lands, d) == (
                Step {
                    orders: Orders { play: Some(ANIM_THROW), ..spent },
                    throws: true,
                    ..only_looks()
                },
                d.after(1),
            )
            &&& !throws && !crowded ==> tree(s, lands, d) == (
                Step { orders: Orders { gait: Some(STILL), ..shot }, ..only_looks() },
                d.after(1),
            )
            &&& !throws && crowded && s.temper is None ==> tree(s, lands, d) == (back, d.after(1))
            &&& !throws && crowded ==> (s.temper matches Some(t) ==> {
                &&& s.kind == 219 || !t.act.meets(d.after(1).head()) ==> tree(s, lands, d) == (
                    back,
                    d.after(2),
                )
                &&& s.kind != 219 && t.act.meets(d.after(1).head()) && !t.scared.meets(
                    d.after(2).head(),
                ) ==> tree(s, lands, d) == (back, d.after(3))
                &&& s.kind != 219 && t.act.meets(d.after(1).head()) && t.scared.meets(
                    d.after(2).head(),
                ) ==> tree(s, lands, d) == (
                    Step {
                        orders: Orders {
                            rounds: shot.rounds,
                            play: shot.play,
                            ..runs_away(d.after(3).head()).orders
                        },
                        ..runs_away(d.after(3).head())
                    },
                    d.after(4),
                )
            })
        }),
{
}

/// A walker whose clock runs goes on with what it does. It looks where it makes
/// for, away from what it runs from, or at its target; back within half its
/// leash it stops, and is asked again at once; and unless it is running it
/// stands.
pub proof fn a_waiting_walker_goes_on(s: Senses, lands: bool, d: rand::Drawn)
    requires
        s.clock > 0,
        s.running || !s.out || s.turret || (s.homing && !s.back && s.homing_pen),
    ensures
        tree(s, lands, d) == (
            Step {
                orders: Orders {
                    gait: if s.running {
                        None
                    } else {
                        Some(STILL)
                    },
                    look: if s.homing {
                        Look::Home
                    } else if s.fleeing {
                        Look::Away
                    } else {
                        Look::Target
                    },
                    clock: if s.homing && s.back {
                        Clock::Tenths(0)
                    } else {
                        Clock::Leave
                    },
                    rounds: None,
                    state: None,
                    play: None,
                    avoid: false,
                },
                homing: if s.homing && s.back {
                    Homing::Drop
                } else {
                    Homing::Keep
                },
                fleeing: None,
                throws: false,
            },
            d,
        ),
{
}

/// A walker past its leash that can move turns for home at a run, for three
/// seconds, watching its path; unless it runs on its clock or is on its way.
pub proof fn past_its_leash_it_turns_for_home(s: Senses, lands: bool, d: rand::Drawn)
    requires
        s.out && !s.turret,
        s.clock > 0 ==> !s.running && !(s.homing && !s.back && s.homing_pen),
    ensures
        tree(s, lands, d).1 == d,
        tree(s, lands, d).0.orders == (Orders {
            gait: Some(RUN),
            look: Look::Home,
            clock: Clock::Tenths(30),
            rounds: None,
            state: None,
            play: None,
            avoid: true,
        }),
        tree(s, lands, d).0.homing == Homing::Pen,
        tree(s, lands, d).0.fleeing == (if s.clock <= 0 {
            Some(false)
        } else {
            None
        }),
        !tree(s, lands, d).0.throws,
{
}

/// A walker without a temper, off its clock and with no round left, stands; or
/// backs off, where its target is nearer than nought.
pub proof fn without_a_temper_it_stands(s: Senses, lands: bool, d: rand::Drawn)
    requires
        s.temper is None,
        s.clock <= 0 && s.left <= 0,
        !s.out || s.turret,
        s.dist >= 0 || s.turret,
    ensures
        tree(s, lands, d) == (
            Step {
                orders: Orders { gait: Some(STILL), ..only_looks().orders },
                ..only_looks()
            },
            d,
        ),
{
}

} // verus!
