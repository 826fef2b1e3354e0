//! How the walkers decide.
//!
//! A machine here is a function from what a walker remembers, what it senses
//! and the random numbers, to what it does next. What it senses are answers to
//! questions about distances, bearings and walls; whoever has the geometry
//! answers them, and turns the orders that come back into headings and speeds.
//!
//! The random numbers are part of the game: a machine draws exactly when its
//! tree of choices reaches a roll, and the contracts say after how many draws
//! the generator is left.
use crate::measure;
use crate::rand;
use crate::rand::Random;
use vstd::prelude::*;

verus! {

/// A gait is what a walker does with its legs.
pub const STILL: i64 = 0;

pub const WALK: i64 = 1;

pub const RUN: i64 = 2;

pub const BACK: i64 = 3;

/// A span of seconds: `times` the fraction that `draw` stands for, and `tenths`
/// tenths on top.
#[derive(Clone, Copy, Debug, PartialEq, Eq, Structural)]
pub struct Wait {
    pub draw: u32,
    pub times: u32,
    pub tenths: u32,
}

/// What becomes of the clock that a walker waits on before it may act again.
#[derive(Clone, Copy, Debug, PartialEq, Eq, Structural)]
pub enum Clock {
    /// It runs on.
    Leave,
    /// It is set to this many tenths of a second.
    Tenths(u32),
    /// It is set to a span that a draw decides.
    Drawn(Wait),
    /// It is set to the time between two rounds of its burst.
    Interval,
    /// It is set to the length of this animation.
    Length(i64),
}

/// Where a walker is told to look.
#[derive(Clone, Copy, Debug, PartialEq, Eq, Structural)]
pub enum Look {
    /// Where it was told before.
    Keep,
    /// At what it fights.
    Target,
    /// At its pen.
    Home,
    /// Away from what it fights.
    Away,
    /// The other way round.
    Behind,
    /// A right angle off, to one side or to the other.
    Aside(bool),
    /// At what it fights, but off by up to half a right angle as this draw has
    /// it.
    Astray(u32),
    /// At a spot in its pen: one draw says how far out, one in which direction.
    Spot(u32, u32),
}

/// What a walker does next. What is `None` stays as it is.
#[derive(Clone, Copy, Debug, PartialEq, Eq)]
pub struct Orders {
    pub gait: Option<i64>,
    pub look: Look,
    pub clock: Clock,
    /// Rounds left in its burst.
    pub rounds: Option<i64>,
    /// The state that it remembers.
    pub state: Option<i64>,
    /// The animation that it is given, from its beginning.
    pub play: Option<i64>,
    /// Whether it begins to watch its path.
    pub avoid: bool,
}

impl Orders {
    /// Nothing changes.
    pub open spec fn quiet() -> Orders {
        Orders {
            gait: None,
            look: Look::Keep,
            clock: Clock::Leave,
            rounds: None,
            state: None,
            play: None,
            avoid: false,
        }
    }

    /// Nothing changes.
    pub fn none() -> (o: Orders)
        ensures
            o == Orders::quiet(),
    {
        Orders {
            gait: None,
            look: Look::Keep,
            clock: Clock::Leave,
            rounds: None,
            state: None,
            play: None,
            avoid: false,
        }
    }
}

// ---------------------------------------------------------------------------
// Going somewhere
// ---------------------------------------------------------------------------
/// What a walker on its way senses of the way.
#[derive(Clone, Copy, Debug, PartialEq, Eq, Structural)]
pub struct Way {
    /// How far off it is in the plane, and how near counts as there.
    pub off: i64,
    pub radius: i64,
    /// How far it is from the height of where it goes; nought for what walks.
    pub height: i64,
    /// The time left for which it keeps its heading.
    pub keep: i64,
    /// It looks where it was told to.
    pub square: bool,
}

impl Way {
    /// It is within the radius of where it goes.
    pub open spec fn inside(self) -> bool {
        self.off < self.radius
    }

    /// It is within half a unit of the height of where it goes.
    pub open spec fn level(self) -> bool {
        self.height < measure::HALF
    }
}

/// How a walker is to go.
#[derive(Clone, Copy, Debug, PartialEq, Eq, Structural)]
pub struct Manner {
    pub run: bool,
    /// It stands while it is still turning.
    pub must_face: bool,
    /// It watches its path.
    pub avoid: bool,
}

/// What the going comes to.
#[derive(Clone, Copy, Debug, PartialEq, Eq)]
pub struct Steer {
    /// It is there, and the time for which it kept a heading is over.
    pub arrived: bool,
    pub gait: Option<i64>,
    /// It points at where it goes: straight, or off by what the draw says.
    pub aim: Option<Option<u32>>,
    /// How long it keeps that heading.
    pub keep: Option<Wait>,
    /// It begins to watch its path.
    pub avoid: bool,
}

/// The going, from what it senses and the draws that are to come. Arriving is
/// in the plane, and for a flier at the height too. With the time up it aims,
/// and far out it aims a little off; with time left it walks on.
pub open spec fn going(way: Way, manner: Manner, d: rand::Drawn) -> (Steer, rand::Drawn) {
    let quiet = Steer { arrived: false, gait: None, aim: None, keep: None, avoid: false };
    if way.inside() && way.level() {
        (Steer { arrived: true, ..quiet }, d)
    } else if way.inside() {
        (Steer { gait: Some(STILL), ..quiet }, d)
    } else if way.keep <= 0 && way.off > measure::TEN {
        (
            Steer {
                aim: Some(Some(d.head())),
                keep: Some(Wait { draw: d.after(1).head(), times: 3, tenths: 10 }),
                ..quiet
            },
            d.after(2),
        )
    } else if way.keep <= 0 {
        (
            Steer {
                aim: Some(None),
                keep: Some(Wait { draw: d.head(), times: 3, tenths: 10 }),
                ..quiet
            },
            d.after(1),
        )
    } else {
        (
            Steer {
                gait: Some(
                    if manner.must_face && !way.square {
                        STILL
                    } else if manner.run {
                        RUN
                    } else {
                        WALK
                    },
                ),
                avoid: manner.avoid,
                ..quiet
            },
            d,
        )
    }
}

/// One call of the going that all the machines share.
pub fn goto_core(way: &Way, manner: &Manner, random: &mut Random) -> (r: Steer)
    ensures
        (r, final(random)@) == going(*way, *manner, old(random)@),
{
    let quiet = Steer { arrived: false, gait: None, aim: None, keep: None, avoid: false };
    if way.off < way.radius {
        if way.height < measure::HALF {
            return Steer { arrived: true, ..quiet };
        }
        return Steer { gait: Some(STILL), ..quiet };
    }
    if way.keep <= 0 {
        let off: Option<u32> = if way.off > measure::TEN {
            Some(random.next_u32())
        } else {
            None
        };
        let draw: u32 = random.next_u32();
        return Steer { aim: Some(off), keep: Some(Wait { draw, times: 3, tenths: 10 }), ..quiet };
    }
    let gait: i64 = if manner.must_face && !way.square {
        STILL
    } else if manner.run {
        RUN
    } else {
        WALK
    };
    Steer { gait: Some(gait), avoid: manner.avoid, ..quiet }
}

/// Arriving does not stop the legs, and neither does taking aim: both leave the
/// gait alone. Who must face stands still until it does.
pub proof fn the_legs_are_not_stopped_by_arriving(way: Way, manner: Manner, d: rand::Drawn)
    ensures
        going(way, manner, d).0.arrived ==> going(way, manner, d).0.gait is None,
        going(way, manner, d).0.aim is Some ==> going(way, manner, d).0.gait is None,
        manner.must_face && !way.square && going(way, manner, d).0.gait is Some ==> going(
            way,
            manner,
            d,
        ).0.gait == Some(STILL),
        going(way, manner, d).0.arrived <==> way.inside() && way.level(),
{
}

/// The direct going: no clock and no draw. It has arrived within the radius, in
/// all three axes; short of that it turns on the spot first, and moves once it
/// faces.
pub fn goto_directly(arrived: bool, square: bool, run: bool) -> (gait: Option<i64>)
    ensures
        gait == (if arrived {
            None
        } else if !square {
            Some(STILL)
        } else if run {
            Some(RUN)
        } else {
            Some(WALK)
        }),
{
    if arrived {
        None
    } else if !square {
        Some(STILL)
    } else if run {
        Some(RUN)
    } else {
        Some(WALK)
    }
}

/// A walker that takes to its heels: it turns its back, runs, watches its path,
/// and keeps at it for two seconds and up to three more.
pub open spec fn flight(draw: u32) -> Orders {
    Orders {
        gait: Some(RUN),
        look: Look::Away,
        clock: Clock::Drawn(Wait { draw, times: 3, tenths: 20 }),
        avoid: true,
        ..Orders::quiet()
    }
}

/// Take to its heels.
pub fn retreat(random: &mut Random) -> (o: Orders)
    ensures
        o == flight(old(random)@.head()),
        final(random)@ == old(random)@.after(1),
{
    let draw: u32 = random.next_u32();
    Orders {
        gait: Some(RUN),
        look: Look::Away,
        clock: Clock::Drawn(Wait { draw, times: 3, tenths: 20 }),
        avoid: true,
        ..Orders::none()
    }
}

/// The side on which a walker goes round things: tossed once, and kept.
pub open spec fn tossed(side: Option<bool>, d: rand::Drawn) -> (bool, rand::Drawn) {
    match side {
        Some(s) => (s, d),
        None => (d.head() * 2 < rand::WHOLE, d.after(1)),
    }
}

/// Which side a walker goes round things.
pub fn side_of(side: Option<bool>, random: &mut Random) -> (r: bool)
    ensures
        (r, final(random)@) == tossed(side, old(random)@),
{
    match side {
        Some(s) => s,
        None => {
            let draw: u32 = random.next_u32();
            (draw as u64) * 2 < rand::WHOLE as u64
        },
    }
}

// ---------------------------------------------------------------------------
// The birdbrain, which flies
// ---------------------------------------------------------------------------
/// What a birdbrain senses.
#[derive(Clone, Copy, Debug, PartialEq, Eq, Structural)]
pub struct BirdSenses {
    /// It has been roused already.
    pub roused: bool,
    /// How far off its target is.
    pub dist: i64,
    /// Its target is in front of it.
    pub ahead: bool,
    /// No wall stands between the two.
    pub sees: bool,
    /// Another walker stands between the two.
    pub friend: bool,
    /// What is left on the clock.
    pub clock: i64,
    /// How far off its pen is, its leash, and half of it.
    pub home: i64,
    pub leash: i64,
    pub half_leash: i64,
    /// How far it is from the height it wants.
    pub height: i64,
    /// It looks at its target.
    pub square: bool,
    /// The distance from which it shoots rather than swipes.
    pub shoots_from: i64,
    /// The way to its pen, and the way to its target.
    pub way_home: Way,
    pub way_there: Way,
}

/// What a birdbrain does. Where it is given both orders and a way, the way is
/// taken after the orders.
#[derive(Clone, Copy, Debug, PartialEq, Eq)]
pub struct BirdStep {
    /// It is roused from now on.
    pub roused: bool,
    pub orders: Orders,
    /// It is on its way, and how.
    pub steer: Option<Steer>,
    /// It picks a new height: ten above its target, but not under its pen.
    pub climb: bool,
}

/// Going home, hovering, chasing, changing height: what a birdbrain can be
/// doing.
pub const BIRD_HOME: i64 = 1;

pub const BIRD_HOVER: i64 = 4;

pub const BIRD_CHASE: i64 = 5;

pub const BIRD_CLIMB: i64 = 14;

/// The rounds in a full burst.
pub const ROUNDS: i64 = 3;

pub const ANIM_SHOOT: i64 = 56;

pub const ANIM_SWIPE: i64 = 15;

impl BirdSenses {
    /// A clear line to its target, once it is roused or has noticed it.
    pub open spec fn clear(self) -> bool {
        (self.roused || self.dist < measure::FIVE || self.ahead) && self.sees
    }

    /// The clock has run out.
    pub open spec fn cool(self) -> bool {
        self.clock <= 0
    }

    /// It has a leash and is past it.
    pub open spec fn past(self) -> bool {
        self.leash > 0 && self.home > self.leash
    }

    /// Nothing keeps it from shooting.
    pub open spec fn open_fire(self) -> bool {
        self.clear() && !self.friend
    }
}

pub open spec fn home_manner() -> Manner {
    Manner { run: true, must_face: true, avoid: true }
}

pub open spec fn chase_manner() -> Manner {
    Manner { run: true, must_face: false, avoid: true }
}

/// Hovering: it fires while it can, and finds another place when it cannot.
pub open spec fn bird_hover(s: BirdSenses, left: i64, d: rand::Drawn) -> (BirdStep, rand::Drawn) {
    let still = Orders { gait: Some(STILL), look: Look::Target, ..Orders::quiet() };
    let step = BirdStep { roused: true, orders: still, steer: None, climb: false };
    if !s.open_fire() || left < 1 {
        if s.past() {
            (
                BirdStep {
                    orders: Orders {
                        state: Some(BIRD_HOME),
                        clock: Clock::Tenths(30),
                        ..still
                    },
                    ..step
                },
                d,
            )
        } else if d.head() * 5 < 2 * rand::WHOLE {
            (
                BirdStep {
                    orders: Orders { state: Some(BIRD_CLIMB), ..still },
                    climb: true,
                    ..step
                },
                d.after(1),
            )
        } else if s.dist <= measure::THIRTY {
            (BirdStep { orders: Orders { rounds: Some(ROUNDS), ..still }, ..step }, d.after(1))
        } else {
            (
                BirdStep {
                    orders: Orders {
                        state: Some(BIRD_CHASE),
                        clock: Clock::Tenths(30),
                        ..still
                    },
                    ..step
                },
                d.after(1),
            )
        }
    } else if !s.cool() || !s.square {
        (step, d)
    } else {
        (
            BirdStep {
                orders: Orders {
                    play: Some(
                        if s.dist >= s.shoots_from {
                            ANIM_SHOOT
                        } else {
                            ANIM_SWIPE
                        },
                    ),
                    rounds: Some((left - 1) as i64),
                    clock: Clock::Tenths(
                        if s.dist >= s.shoots_from {
                            10
                        } else {
                            30
                        },
                    ),
                    ..still
                },
                ..step
            },
            d,
        )
    }
}

/// What a birdbrain does about a target. `state` is what it was doing, hovering
/// if nothing was said; `left` are the rounds left in its burst.
pub open spec fn bird_step(state: Option<i64>, left: Option<i64>, s: BirdSenses, d: rand::Drawn) -> (
    BirdStep,
    rand::Drawn,
) {
    let watching = Orders { look: Look::Target, ..Orders::quiet() };
    let step = BirdStep { roused: true, orders: watching, steer: None, climb: false };
    let rounds = match left {
        Some(n) => n,
        None => ROUNDS,
    };
    if !s.roused && !s.clear() {
        (BirdStep { roused: false, orders: Orders::quiet(), steer: None, climb: false }, d)
    } else if state == Some(BIRD_HOME) {
        let (steer, after) = going(s.way_home, home_manner(), d);
        let done = s.home < s.half_leash || s.dist < measure::FIFTEEN || s.cool() && s.open_fire();
        (
            BirdStep {
                steer: Some(steer),
                orders: if done {
                    Orders {
                        state: Some(BIRD_HOVER),
                        rounds: Some(ROUNDS),
                        clock: Clock::Tenths(0),
                        ..watching
                    }
                } else {
                    watching
                },
                ..step
            },
            after,
        )
    } else if state == Some(BIRD_CHASE) {
        let (steer, after) = going(s.way_there, chase_manner(), d);
        let done = s.past() || s.dist < measure::THIRTY || s.cool() && s.open_fire();
        (
            BirdStep {
                steer: Some(steer),
                orders: if done {
                    Orders {
                        state: Some(BIRD_HOVER),
                        rounds: Some(ROUNDS),
                        clock: if s.clock > measure::ONE {
                            Clock::Tenths(10)
                        } else {
                            Clock::Leave
                        },
                        ..watching
                    }
                } else {
                    watching
                },
                ..step
            },
            after,
        )
    } else if state == Some(BIRD_CLIMB) {
        let still = Orders { gait: Some(STILL), ..watching };
        (
            BirdStep {
                orders: if s.height <= measure::HALF {
                    Orders { state: Some(BIRD_HOVER), rounds: Some(1), ..still }
                } else {
                    still
                },
                ..step
            },
            d,
        )
    } else {
        bird_hover(s, rounds, d)
    }
}

fn hover(s: &BirdSenses, left: i64, random: &mut Random) -> (r: BirdStep)
    ensures
        (r, final(random)@) == bird_hover(*s, left, old(random)@),
{
    let still = Orders { gait: Some(STILL), look: Look::Target, ..Orders::none() };
    let step = BirdStep { roused: true, orders: still, steer: None, climb: false };
    let clear: bool = (s.roused || s.dist < measure::FIVE || s.ahead) && s.sees;
    if !clear || s.friend || left < 1 {
        if s.leash > 0 && s.home > s.leash {
            let orders = Orders { state: Some(BIRD_HOME), clock: Clock::Tenths(30), ..still };
            return BirdStep { orders, ..step };
        }
        let draw: u32 = random.next_u32();
        if (draw as u64) * 5 < 2 * (rand::WHOLE as u64) {
            let orders = Orders { state: Some(BIRD_CLIMB), ..still };
            return BirdStep { orders, climb: true, ..step };
        }
        if s.dist <= measure::THIRTY {
            let orders = Orders { rounds: Some(ROUNDS), ..still };
            return BirdStep { orders, ..step };
        }
        let orders = Orders { state: Some(BIRD_CHASE), clock: Clock::Tenths(30), ..still };
        return BirdStep { orders, ..step };
    }
    if s.clock > 0 || !s.square {
        return step;
    }
    let play: i64 = if s.dist >= s.shoots_from {
        ANIM_SHOOT
    } else {
        ANIM_SWIPE
    };
    let tenths: u32 = if s.dist >= s.shoots_from {
        10
    } else {
        30
    };
    let orders = Orders {
        play: Some(play),
        rounds: Some(left - 1),
        clock: Clock::Tenths(tenths),
        ..still
    };
    BirdStep { orders, ..step }
}

/// What a birdbrain with nothing to fight does.
pub open spec fn bird_idles() -> BirdStep {
    BirdStep {
        roused: false,
        orders: Orders { gait: Some(STILL), ..Orders::quiet() },
        steer: None,
        climb: false,
    }
}

/// What a birdbrain does next; `s` is what it senses of its target, if it has
/// one. Whatever cannot fly does not run this machine at all.
pub fn birdbrain(
    state: Option<i64>,
    left: Option<i64>,
    s: Option<BirdSenses>,
    random: &mut Random,
) -> (r: BirdStep)
    ensures
        (r, final(random)@) == match s {
            Some(s) => bird_step(state, left, s, old(random)@),
            None => (bird_idles(), old(random)@),
        },
{
    let s = match s {
        Some(s) => s,
        None => {
            return BirdStep {
                roused: false,
                orders: Orders { gait: Some(STILL), ..Orders::none() },
                steer: None,
                climb: false,
            };
        },
    };
    let watching = Orders { look: Look::Target, ..Orders::none() };
    let step = BirdStep { roused: true, orders: watching, steer: None, climb: false };
    let clear: bool = (s.roused || s.dist < measure::FIVE || s.ahead) && s.sees;
    if !s.roused && !clear {
        return BirdStep { roused: false, orders: Orders::none(), steer: None, climb: false };
    }
    let fire: bool = clear && !s.friend;
    let doing: i64 = match state {
        Some(n) => n,
        None => BIRD_HOVER,
    };
    if doing == BIRD_HOME {
        let manner = Manner { run: true, must_face: true, avoid: true };
        let steer = goto_core(&s.way_home, &manner, random);
        if s.home < s.half_leash || s.dist < measure::FIFTEEN || (s.clock <= 0 && fire) {
            let orders = Orders {
                state: Some(BIRD_HOVER),
                rounds: Some(ROUNDS),
                clock: Clock::Tenths(0),
                ..watching
            };
            return BirdStep { steer: Some(steer), orders, ..step };
        }
        return BirdStep { steer: Some(steer), ..step };
    }
    if doing == BIRD_CHASE {
        let manner = Manner { run: true, must_face: false, avoid: true };
        let steer = goto_core(&s.way_there, &manner, random);
        if (s.leash > 0 && s.home > s.leash) || s.dist < measure::THIRTY || (s.clock <= 0
            && fire) {
            let clock = if s.clock > measure::ONE {
                Clock::Tenths(10)
            } else {
                Clock::Leave
            };
            let orders = Orders {
                state: Some(BIRD_HOVER),
                rounds: Some(ROUNDS),
                clock,
                ..watching
            };
            return BirdStep { steer: Some(steer), orders, ..step };
        }
        return BirdStep { steer: Some(steer), ..step };
    }
    if doing == BIRD_CLIMB {
        let still = Orders { gait: Some(STILL), ..watching };
        if s.height <= measure::HALF {
            let orders = Orders { state: Some(BIRD_HOVER), rounds: Some(1), ..still };
            return BirdStep { orders, ..step };
        }
        return BirdStep { orders: still, ..step };
    }
    let rounds: i64 = match left {
        Some(n) => n,
        None => ROUNDS,
    };
    hover(&s, rounds, random)
}

/// A birdbrain fires only at what it has a clear line to, with a round left,
/// its clock run out and its nose on the target; and every shot costs a round
/// and a wait. It picks a new height only when it cannot shoot.
pub proof fn a_birdbrain_fires_only_when_it_can(
    state: Option<i64>,
    left: Option<i64>,
    s: BirdSenses,
    d: rand::Drawn,
)
    ensures
        ({
            let (step, after) = bird_step(state, left, s, d);
            let had = match left {
                Some(n) => n,
                None => ROUNDS,
            };
            &&& step.orders.play is Some ==> {
                &&& s.open_fire()
                &&& s.cool() && s.square
                &&& had >= 1
                &&& step.orders.rounds == Some((had - 1) as i64)
                &&& step.orders.clock is Tenths && step.orders.clock->Tenths_0 > 0
            }
            &&& step.climb ==> step.orders.state == Some(BIRD_CLIMB) && !(s.open_fire() && had >= 1)
        }),
{
}

/// A birdbrain is never lost: whatever state it is told to take up is one of
/// its four.
pub proof fn a_birdbrain_knows_its_states(
    state: Option<i64>,
    left: Option<i64>,
    s: BirdSenses,
    d: rand::Drawn,
)
    ensures
        bird_step(state, left, s, d).0.orders.state matches Some(n) ==> n == BIRD_HOME || n
            == BIRD_HOVER || n == BIRD_CHASE || n == BIRD_CLIMB,
{
}

// ---------------------------------------------------------------------------
// What each choice comes to
// ---------------------------------------------------------------------------
/// A walker within the radius of where it goes, and within half a unit of its
/// height, has arrived; at another height it stands. Outside, with its time up,
/// it takes aim: more than ten units out a little off, and for one second and
/// up to three more. With time left it goes: at a run where it is to run, at a
/// walk where it is not, and not at all while it has to face and does not.
pub proof fn the_going_goes(way: Way, manner: Manner, d: rand::Drawn)
    ensures
        way.off < way.radius && way.height < measure::HALF ==> going(way, manner, d) == (
            Steer { arrived: true, gait: None, aim: None, keep: None, avoid: false },
            d,
        ),
        way.off < way.radius && way.height >= measure::HALF ==> going(way, manner, d) == (
            Steer { arrived: false, gait: Some(STILL), aim: None, keep: None, avoid: false },
            d,
        ),
        way.off >= way.radius && way.keep <= 0 && way.off > measure::TEN ==> going(way, manner, d)
            == (
            Steer {
                arrived: false,
                gait: None,
                aim: Some(Some(d.head())),
                keep: Some(Wait { draw: d.after(1).head(), times: 3, tenths: 10 }),
                avoid: false,
            },
            d.after(2),
        ),
        way.off >= way.radius && way.keep <= 0 && way.off <= measure::TEN ==> going(way, manner, d)
            == (
            Steer {
                arrived: false,
                gait: None,
                aim: Some(None),
                keep: Some(Wait { draw: d.head(), times: 3, tenths: 10 }),
                avoid: false,
            },
            d.after(1),
        ),
        way.off >= way.radius && way.keep > 0 && (way.square || !manner.must_face) && manner.run
            ==> going(way, manner, d) == (
            Steer {
                arrived: false,
                gait: Some(RUN),
                aim: None,
                keep: None,
                avoid: manner.avoid,
            },
            d,
        ),
        way.off >= way.radius && way.keep > 0 && (way.square || !manner.must_face) && !manner.run
            ==> going(way, manner, d) == (
            Steer {
                arrived: false,
                gait: Some(WALK),
                aim: None,
                keep: None,
                avoid: manner.avoid,
            },
            d,
        ),
        way.off >= way.radius && way.keep > 0 && !way.square && manner.must_face ==> going(
            way,
            manner,
            d,
        ) == (
            Steer {
                arrived: false,
                gait: Some(STILL),
                aim: None,
                keep: None,
                avoid: manner.avoid,
            },
            d,
        ),
{
}

/// Whoever takes to its heels runs with its back turned for two seconds and up
/// to three more, and watches its path; its burst and its state stay. Whoever
/// has a side keeps it, and whoever has none tosses for one.
pub proof fn flights_and_tosses(draw: u32, side: bool, d: rand::Drawn)
    ensures
        flight(draw) == (Orders {
            gait: Some(RUN),
            look: Look::Away,
            clock: Clock::Drawn(Wait { draw, times: 3, tenths: 20 }),
            rounds: None,
            state: None,
            play: None,
            avoid: true,
        }),
        tossed(Some(side), d) == (side, d),
        d.head() * 2 < 0xffff_ffff ==> tossed(None, d) == (true, d.after(1)),
        d.head() * 2 >= 0xffff_ffff ==> tossed(None, d) == (false, d.after(1)),
        STILL == 0 && WALK == 1 && RUN == 2 && BACK == 3,
{
}

/// What a birdbrain does that only looks at its target.
pub open spec fn bird_looks() -> BirdStep {
    BirdStep {
        roused: true,
        orders: Orders {
            gait: None,
            look: Look::Target,
            clock: Clock::Leave,
            rounds: None,
            state: None,
            play: None,
            avoid: false,
        },
        steer: None,
        climb: false,
    }
}

/// A birdbrain is roused by what it sees that is ahead or less than five units
/// off, and stays roused; until then it does nothing. Without a target it
/// stands, and is not roused.
pub proof fn a_birdbrain_is_roused_by_sight(
    state: Option<i64>,
    left: Option<i64>,
    s: BirdSenses,
    d: rand::Drawn,
)
    ensures
        bird_step(state, left, s, d).0.roused <==> s.roused || ((s.ahead || s.dist < measure::FIVE)
            && s.sees),
        !s.roused && !((s.ahead || s.dist < measure::FIVE) && s.sees) ==> bird_step(
            state,
            left,
            s,
            d,
        ) == (
            BirdStep {
                roused: false,
                orders: Orders { look: Look::Keep, ..bird_looks().orders },
                ..bird_looks()
            },
            d,
        ),
        bird_idles() == (BirdStep {
            roused: false,
            orders: Orders { gait: Some(STILL), look: Look::Keep, ..bird_looks().orders },
            ..bird_looks()
        }),
{
}

/// A birdbrain that sees its target, with nobody in between, a round left, its
/// clock run out and its nose on it, fires: it shoots from as far off as it
/// shoots from, and waits a second, and swipes from nearer, and waits three.
/// While it waits or turns it hovers.
pub proof fn a_hovering_birdbrain_fires(state: Option<i64>, left: i64, s: BirdSenses, d: rand::Drawn)
    requires
        state is None || (state->Some_0 != 1 && state->Some_0 != 5 && state->Some_0 != 14),
        s.roused || s.ahead || s.dist < measure::FIVE,
        s.sees,
        !s.friend,
        left >= 1,
    ensures
        s.clock <= 0 && s.square && s.dist >= s.shoots_from ==> bird_step(state, Some(left), s, d)
            == (
            BirdStep {
                orders: Orders {
                    gait: Some(STILL),
                    play: Some(ANIM_SHOOT),
                    rounds: Some((left - 1) as i64),
                    clock: Clock::Tenths(10),
                    ..bird_looks().orders
                },
                ..bird_looks()
            },
            d,
        ),
        s.clock <= 0 && s.square && s.dist < s.shoots_from ==> bird_step(state, Some(left), s, d)
            == (
            BirdStep {
                orders: Orders {
                    gait: Some(STILL),
                    play: Some(ANIM_SWIPE),
                    rounds: Some((left - 1) as i64),
                    clock: Clock::Tenths(30),
                    ..bird_looks().orders
                },
                ..bird_looks()
            },
            d,
        ),
        s.clock > 0 || !s.square ==> bird_step(state, Some(left), s, d) == (
            BirdStep {
                orders: Orders { gait: Some(STILL), ..bird_looks().orders },
                ..bird_looks()
            },
            d,
        ),
        bird_step(state, None, s, d) == bird_step(state, Some(3i64), s, d),
{
}

/// A roused birdbrain that cannot fire, or has no round left, goes home if it
/// is past its leash; else it picks another height two times in five; else it
/// loads if its target is no more than thirty units off, and chases it if it is
/// more.
pub proof fn a_hovering_birdbrain_moves_on(
    state: Option<i64>,
    left: i64,
    s: BirdSenses,
    d: rand::Drawn,
)
    requires
        state is None || (state->Some_0 != 1 && state->Some_0 != 5 && state->Some_0 != 14),
        s.roused || ((s.ahead || s.dist < measure::FIVE) && s.sees),
        !s.sees || s.friend || left < 1,
    ensures
        s.leash > 0 && s.home > s.leash ==> bird_step(state, Some(left), s, d) == (
            BirdStep {
                orders: Orders {
                    gait: Some(STILL),
                    state: Some(BIRD_HOME),
                    clock: Clock::Tenths(30),
                    ..bird_looks().orders
                },
                ..bird_looks()
            },
            d,
        ),
        (s.leash <= 0 || s.home <= s.leash) && d.head() * 5 < 2 * 0xffff_ffff ==> bird_step(
            state,
            Some(left),
            s,
            d,
        ) == (
            BirdStep {
                orders: Orders {
                    gait: Some(STILL),
                    state: Some(BIRD_CLIMB),
                    ..bird_looks().orders
                },
                climb: true,
                ..bird_looks()
            },
            d.after(1),
        ),
        (s.leash <= 0 || s.home <= s.leash) && d.head() * 5 >= 2 * 0xffff_ffff && s.dist
            <= measure::THIRTY ==> bird_step(state, Some(left), s, d) == (
            BirdStep {
                orders: Orders { gait: Some(STILL), rounds: Some(3i64), ..bird_looks().orders },
                ..bird_looks()
            },
            d.after(1),
        ),
        (s.leash <= 0 || s.home <= s.leash) && d.head() * 5 >= 2 * 0xffff_ffff && s.dist
            > measure::THIRTY ==> bird_step(state, Some(left), s, d) == (
            BirdStep {
                orders: Orders {
                    gait: Some(STILL),
                    state: Some(BIRD_CHASE),
                    clock: Clock::Tenths(30),
                    ..bird_looks().orders
                },
                ..bird_looks()
            },
            d.after(1),
        ),
{
}

/// A birdbrain on its way home goes there at a run, facing and watching its
/// path. It hovers again, with a full burst, within half its leash, with its
/// target less than fifteen units off, or off its clock with a clear shot.
pub proof fn a_birdbrain_goes_home(left: Option<i64>, s: BirdSenses, d: rand::Drawn)
    requires
        s.roused || ((s.ahead || s.dist < measure::FIVE) && s.sees),
    ensures
        ({
            let manner = Manner { run: true, must_face: true, avoid: true };
            let done = s.home < s.half_leash || s.dist < measure::FIFTEEN || (s.clock <= 0 && s.sees
                && !s.friend);
            bird_step(Some(BIRD_HOME), left, s, d) == (
                BirdStep {
                    steer: Some(going(s.way_home, manner, d).0),
                    orders: Orders {
                        state: if done {
                            Some(BIRD_HOVER)
                        } else {
                            None
                        },
                        rounds: if done {
                            Some(3i64)
                        } else {
                            None
                        },
                        clock: if done {
                            Clock::Tenths(0)
                        } else {
                            Clock::Leave
                        },
                        ..bird_looks().orders
                    },
                    ..bird_looks()
                },
                going(s.way_home, manner, d).1,
            )
        }),
{
}

/// A birdbrain that chases goes at its target at a run, watching its path,
/// whether it faces or not. It hovers again, with a full burst, past its leash,
/// less than thirty units off, or off its clock with a clear shot; and of a
/// longer wait one second is left.
pub proof fn a_birdbrain_chases(left: Option<i64>, s: BirdSenses, d: rand::Drawn)
    requires
        s.roused || ((s.ahead || s.dist < measure::FIVE) && s.sees),
    ensures
        ({
            let manner = Manner { run: true, must_face: false, avoid: true };
            let done = (s.leash > 0 && s.home > s.leash) || s.dist < measure::THIRTY || (s.clock
                <= 0 && s.sees && !s.friend);
            bird_step(Some(BIRD_CHASE), left, s, d) == (
                BirdStep {
                    steer: Some(going(s.way_there, manner, d).0),
                    orders: Orders {
                        state: if done {
                            Some(BIRD_HOVER)
                        } else {
                            None
                        },
                        rounds: if done {
                            Some(3i64)
                        } else {
                            None
                        },
                        clock: if done && s.clock > measure::ONE {
                            Clock::Tenths(10)
                        } else {
                            Clock::Leave
                        },
                        ..bird_looks().orders
                    },
                    ..bird_looks()
                },
                going(s.way_there, manner, d).1,
            )
        }),
{
}

/// A birdbrain that changes its height stands until it is within half a unit
/// of it, and then hovers with one round.
pub proof fn a_birdbrain_climbs(left: Option<i64>, s: BirdSenses, d: rand::Drawn)
    requires
        s.roused || ((s.ahead || s.dist < measure::FIVE) && s.sees),
    ensures
        s.height <= measure::HALF ==> bird_step(Some(BIRD_CLIMB), left, s, d) == (
            BirdStep {
                orders: Orders {
                    gait: Some(STILL),
                    state: Some(BIRD_HOVER),
                    rounds: Some(1i64),
                    ..bird_looks().orders
                },
                ..bird_looks()
            },
            d,
        ),
        s.height > measure::HALF ==> bird_step(Some(BIRD_CLIMB), left, s, d) == (
            BirdStep {
                orders: Orders { gait: Some(STILL), ..bird_looks().orders },
                ..bird_looks()
            },
            d,
        ),
        BIRD_HOME == 1 && BIRD_HOVER == 4 && BIRD_CHASE == 5 && BIRD_CLIMB == 14,
{
}

} // verus!
