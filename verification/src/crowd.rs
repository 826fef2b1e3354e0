//! The samsmite, which goes off, and the conehead civilian, which does not.
use crate::brain;
use crate::brain::{goto_core, Clock, Look, Manner, Orders, Steer, Wait, Way, RUN, STILL, WALK};
use crate::measure;
use crate::rand;
use crate::rand::Random;
use vstd::prelude::*;

verus! {

// ---------------------------------------------------------------------------
// The samsmite
// ---------------------------------------------------------------------------
/// What a samsmite senses of itself and of its target.
#[derive(Clone, Copy, Debug, PartialEq, Eq, Structural)]
pub struct SamSenses {
    pub kind: i64,
    /// How far off its target is, and how far above it.
    pub dist: i64,
    pub above: i64,
    /// The path is free for as far as it looks when it charges, and for as far
    /// as it looks when it prowls.
    pub clear_charge: bool,
    pub clear_prowl: bool,
    /// It has a leash and is nearly at the end of it.
    pub out: bool,
    /// What is left on the clock.
    pub clock: i64,
    /// Its target is in its patch, is in front of it, and is in sight.
    pub in_patch: bool,
    pub ahead: bool,
    pub sees: bool,
    /// The side on which it goes round things, if it has been tossed.
    pub side: Option<bool>,
}

impl SamSenses {
    /// Its target is inside two units.
    pub open spec fn contact(self) -> bool {
        self.dist < measure::TWO
    }

    /// It sees something worth a charge: inside eighteen units, less than half
    /// a unit above it, in its patch, in front of it and in sight.
    pub open spec fn tempted(self) -> bool {
        &&& self.dist < measure::EIGHTEEN
        &&& self.above < measure::HALF
        &&& self.in_patch && self.ahead && self.sees
    }
}

/// What a samsmite does.
#[derive(Clone, Copy, Debug, PartialEq, Eq)]
pub struct SamStep {
    /// It goes off, for this many points, before anything else.
    pub blast: Option<i64>,
    pub orders: Orders,
    /// The side on which it goes round things from now on.
    pub side: Option<bool>,
    /// It forgets its state and dies, after everything else.
    pub dies: bool,
}

pub const SAM_PROWL: i64 = 18;

pub const SAM_CHARGE: i64 = 19;

/// The one that walks away from its own blast.
pub const FLAMING_SAMSMITE: i64 = 215;

/// What going off costs whoever is next to it, and what it costs next to the
/// flaming one; how many units the blast reaches; and how it counts.
pub const SAM_SPENDS: i64 = 15;

pub const FLAMING_SPENDS: i64 = 7;

pub const SAM_BLAST: i64 = 5;

pub const KNOCKDOWN: i64 = 0x402;

/// The wait before a prowling samsmite looks again.
pub open spec fn sam_again(draw: u32) -> Clock {
    Clock::Drawn(Wait { draw, times: 1, tenths: 3 })
}

pub open spec fn sam_charge(s: SamSenses) -> SamStep {
    let step = SamStep { blast: None, orders: Orders::quiet(), side: s.side, dies: false };
    let round = Orders {
        gait: Some(STILL),
        look: Look::Behind,
        state: Some(SAM_PROWL),
        ..Orders::quiet()
    };
    if !s.contact() {
        if s.clear_charge && s.dist <= measure::THIRTY_SIX && !s.out {
            SamStep { orders: Orders { gait: Some(RUN), ..Orders::quiet() }, ..step }
        } else if s.out {
            SamStep { orders: Orders { look: Look::Keep, ..round }, ..step }
        } else {
            SamStep { orders: round, ..step }
        }
    } else if s.kind == FLAMING_SAMSMITE {
        SamStep { blast: Some(FLAMING_SPENDS), orders: round, ..step }
    } else {
        SamStep { blast: Some(SAM_SPENDS), dies: true, ..step }
    }
}

pub open spec fn sam_prowl(s: SamSenses, d: rand::Drawn) -> (SamStep, rand::Drawn) {
    let step = SamStep { blast: None, orders: Orders::quiet(), side: s.side, dies: false };
    let walk = Orders { gait: Some(WALK), ..Orders::quiet() };
    if s.clock > 0 && s.clear_prowl {
        (SamStep { orders: walk, ..step }, d)
    } else if s.clock > 0 {
        let (side, after) = brain::tossed(s.side, d);
        (
            SamStep {
                orders: Orders { look: Look::Aside(side), ..Orders::quiet() },
                side: Some(side),
                ..step
            },
            after,
        )
    } else if s.tempted() {
        (
            SamStep {
                orders: Orders {
                    gait: Some(RUN),
                    look: Look::Target,
                    state: Some(SAM_CHARGE),
                    ..Orders::quiet()
                },
                ..step
            },
            d,
        )
    } else if s.in_patch {
        (
            SamStep {
                orders: Orders {
                    clock: sam_again(d.head()),
                    look: Look::Astray(d.after(1).head()),
                    ..walk
                },
                ..step
            },
            d.after(2),
        )
    } else {
        (
            SamStep {
                orders: Orders {
                    clock: sam_again(d.head()),
                    look: Look::Spot(d.after(1).head(), d.after(2).head()),
                    ..walk
                },
                ..step
            },
            d.after(3),
        )
    }
}

/// The whole machine. Anything but a prowl or a charge becomes a prowl, and
/// nothing else happens that time.
pub open spec fn sam_step(state: Option<i64>, s: SamSenses, d: rand::Drawn) -> (
    SamStep,
    rand::Drawn,
) {
    if state == Some(SAM_CHARGE) {
        (sam_charge(s), d)
    } else if state == Some(SAM_PROWL) {
        sam_prowl(s, d)
    } else {
        (
            SamStep {
                blast: None,
                orders: Orders { state: Some(SAM_PROWL), ..Orders::quiet() },
                side: s.side,
                dies: false,
            },
            d,
        )
    }
}

/// What a samsmite does next about its target; without one it stands still, as
/// [`samsmite_idles`] has it.
pub fn samsmite(state: Option<i64>, s: &SamSenses, random: &mut Random) -> (r: SamStep)
    ensures
        (r, final(random)@) == sam_step(state, *s, old(random)@),
{
    let step = SamStep { blast: None, orders: Orders::none(), side: s.side, dies: false };
    let doing: i64 = match state {
        Some(n) => n,
        None => 0,
    };
    if doing != SAM_PROWL && doing != SAM_CHARGE {
        return SamStep { orders: Orders { state: Some(SAM_PROWL), ..Orders::none() }, ..step };
    }
    if doing == SAM_CHARGE {
        let round = Orders {
            gait: Some(STILL),
            look: Look::Behind,
            state: Some(SAM_PROWL),
            ..Orders::none()
        };
        if s.dist >= measure::TWO {
            if s.clear_charge && s.dist <= measure::THIRTY_SIX && !s.out {
                return SamStep { orders: Orders { gait: Some(RUN), ..Orders::none() }, ..step };
            }
            if s.out {
                return SamStep { orders: Orders { look: Look::Keep, ..round }, ..step };
            }
            return SamStep { orders: round, ..step };
        }
        if s.kind == FLAMING_SAMSMITE {
            return SamStep { blast: Some(FLAMING_SPENDS), orders: round, ..step };
        }
        return SamStep { blast: Some(SAM_SPENDS), dies: true, ..step };
    }
    let walk = Orders { gait: Some(WALK), ..Orders::none() };
    if s.clock > 0 {
        if s.clear_prowl {
            return SamStep { orders: walk, ..step };
        }
        let side: bool = brain::side_of(s.side, random);
        let orders = Orders { look: Look::Aside(side), ..Orders::none() };
        return SamStep { orders, side: Some(side), ..step };
    }
    if s.dist < measure::EIGHTEEN && s.above < measure::HALF && s.in_patch && s.ahead && s.sees {
        let orders = Orders {
            gait: Some(RUN),
            look: Look::Target,
            state: Some(SAM_CHARGE),
            ..Orders::none()
        };
        return SamStep { orders, ..step };
    }
    let draw: u32 = random.next_u32();
    let clock = Clock::Drawn(Wait { draw, times: 1, tenths: 3 });
    let look = if s.in_patch {
        Look::Astray(random.next_u32())
    } else {
        let far: u32 = random.next_u32();
        let angle: u32 = random.next_u32();
        Look::Spot(far, angle)
    };
    SamStep { orders: Orders { clock, look, ..walk }, ..step }
}

/// What a samsmite with nothing to fight does.
pub fn samsmite_idles() -> (o: Orders)
    ensures
        o == (Orders { gait: Some(STILL), ..Orders::quiet() }),
{
    Orders { gait: Some(STILL), ..Orders::none() }
}

/// A samsmite goes off only in a charge and only in contact, and it outlives
/// its blast exactly if it is the flaming one.
pub proof fn a_samsmite_goes_off_in_contact(state: Option<i64>, s: SamSenses, d: rand::Drawn)
    ensures
        ({
            let step = sam_step(state, s, d).0;
            &&& step.blast is Some <==> state == Some(SAM_CHARGE) && s.contact()
            &&& step.dies <==> step.blast is Some && s.kind != FLAMING_SAMSMITE
            &&& step.blast is Some && !step.dies ==> step.orders.state == Some(SAM_PROWL)
        }),
{
}

/// The side on which a samsmite goes round things is tossed at most once: with
/// a side it keeps it, whatever happens.
pub proof fn a_samsmite_keeps_its_side(state: Option<i64>, s: SamSenses, d: rand::Drawn)
    ensures
        s.side is Some ==> sam_step(state, s, d).0.side == s.side,
        sam_step(state, s, d).0.orders.look matches Look::Aside(to) ==> sam_step(
            state,
            s,
            d,
        ).0.side == Some(to),
{
}

// ---------------------------------------------------------------------------
// The conehead civilian
// ---------------------------------------------------------------------------
/// What becomes of the place that a walker is making for.
#[derive(Clone, Copy, Debug, PartialEq, Eq, Structural)]
pub enum Homing {
    /// Nothing.
    Keep,
    /// It makes for no place any more.
    Drop,
    /// It makes for the spot that was drawn.
    Spot,
    /// It makes for its pen.
    Pen,
}

pub const CIV_RUN: i64 = 11;

pub const CIV_CHOOSE: i64 = 3;

pub const CIV_LOOK: i64 = 16;

pub const CIV_WANDER: i64 = 17;

pub const CIV_STAND: i64 = 20;

/// The hero whom a civilian does not mind at all.
pub const DOC: i64 = 102;

pub const ANIM_SCARED: i64 = 18;

/// Tenths of a second: how long it looks, and how long it will walk.
pub const CIV_LOOKING: u32 = 20;

pub const CIV_WANDERING: u32 = 200;

/// A civilian minds whoever is inside twenty units, unless it is Doc. A target
/// is its type and how far off it is.
pub open spec fn civ_minds(target: Option<(i64, i64)>) -> bool {
    match target {
        Some((kind, dist)) => kind != DOC && dist < measure::TWENTY,
        None => false,
    }
}

/// Does a civilian mind this target?
pub fn civilian_minds(target: Option<(i64, i64)>) -> (r: bool)
    ensures
        r == civ_minds(target),
{
    match target {
        Some((kind, dist)) => kind != DOC && dist < measure::TWENTY,
        None => false,
    }
}

/// The animation that a coin picks: one of the two scared ones.
pub open spec fn civ_coin(draw: u32) -> i64 {
    if draw * 2 <= rand::WHOLE {
        (ANIM_SCARED + 1) as i64
    } else {
        ANIM_SCARED
    }
}

fn coin(random: &mut Random) -> (r: i64)
    ensures
        r == civ_coin(old(random)@.head()),
        final(random)@ == old(random)@.after(1),
{
    let draw: u32 = random.next_u32();
    if (draw as u64) * 2 <= rand::WHOLE as u64 {
        ANIM_SCARED + 1
    } else {
        ANIM_SCARED
    }
}

/// What a noise does to a civilian.
#[derive(Clone, Copy, Debug, PartialEq, Eq)]
pub enum Heard {
    /// Nothing.
    Nothing,
    /// It looks up.
    Looks(Orders),
    /// It draws a spot in its pen, and runs there if that can be reached: what
    /// [`civilian_bolts`] says.
    Bolts(u32, u32),
}

pub open spec fn civ_looks(anim: i64) -> Orders {
    Orders {
        play: Some(anim),
        state: Some(CIV_LOOK),
        clock: Clock::Tenths(CIV_LOOKING),
        ..Orders::quiet()
    }
}

pub open spec fn civ_heard(state: Option<i64>, d: rand::Drawn) -> (Heard, rand::Drawn) {
    if state == Some(CIV_STAND) {
        (Heard::Looks(civ_looks(civ_coin(d.head()))), d.after(1))
    } else if state == Some(CIV_LOOK) || state == Some(CIV_WANDER) {
        (Heard::Bolts(d.head(), d.after(1).head()), d.after(2))
    } else {
        (Heard::Nothing, d)
    }
}

/// A civilian hears a noise, wherever it came from. Standing it looks up;
/// looking or walking it bolts; otherwise it does not care.
pub fn civilian_hears(state: Option<i64>, random: &mut Random) -> (r: Heard)
    ensures
        (r, final(random)@) == civ_heard(state, old(random)@),
{
    let doing: i64 = match state {
        Some(n) => n,
        None => CIV_CHOOSE,
    };
    if doing == CIV_STAND {
        let anim: i64 = coin(random);
        return Heard::Looks(
            Orders {
                play: Some(anim),
                state: Some(CIV_LOOK),
                clock: Clock::Tenths(CIV_LOOKING),
                ..Orders::none()
            },
        );
    }
    if doing == CIV_LOOK || doing == CIV_WANDER {
        let far: u32 = random.next_u32();
        let angle: u32 = random.next_u32();
        return Heard::Bolts(far, angle);
    }
    Heard::Nothing
}

/// What bolting comes to: it runs to the spot it drew if nothing is in the way,
/// and otherwise goes on with what it was doing.
pub fn civilian_bolts(reachable: bool) -> (r: Option<(Orders, Homing)>)
    ensures
        r == (if reachable {
            Some(
                (
                    Orders {
                        state: Some(CIV_RUN),
                        clock: Clock::Tenths(CIV_WANDERING),
                        ..Orders::quiet()
                    },
                    Homing::Spot,
                ),
            )
        } else {
            None
        }),
{
    if reachable {
        let orders = Orders {
            state: Some(CIV_RUN),
            clock: Clock::Tenths(CIV_WANDERING),
            ..Orders::none()
        };
        Some((orders, Homing::Spot))
    } else {
        None
    }
}

/// What a civilian makes up its mind to.
#[derive(Clone, Copy, Debug, PartialEq, Eq)]
pub enum Mind {
    /// It was doing something already.
    Busy(i64),
    /// It stands, for a second and up to five more as this draw has it.
    Stand(u32),
    /// It looks, with this animation.
    Look(i64),
    /// It walks to a spot in its pen, if that can be reached: one draw for how
    /// far out, one for the direction.
    Wander(u32, u32),
}

/// Making up its mind: one roll decides. A civilian that minds nobody, or whose
/// roll comes up a fifth or less, stands on a half or more and walks below
/// that; any other looks.
pub open spec fn civ_mind(state: Option<i64>, near: bool, d: rand::Drawn) -> (Mind, rand::Drawn) {
    let roll = d.head();
    if state is Some && state != Some(CIV_CHOOSE) {
        (Mind::Busy(state->Some_0), d)
    } else if !near || roll * 5 <= rand::WHOLE {
        if roll * 2 >= rand::WHOLE {
            (Mind::Stand(d.after(1).head()), d.after(2))
        } else {
            (Mind::Wander(d.after(1).head(), d.after(2).head()), d.after(3))
        }
    } else {
        (Mind::Look(civ_coin(d.after(1).head())), d.after(2))
    }
}

/// A civilian makes up its mind.
pub fn civilian_chooses(state: Option<i64>, near: bool, random: &mut Random) -> (r: Mind)
    ensures
        (r, final(random)@) == civ_mind(state, near, old(random)@),
{
    let doing: i64 = match state {
        Some(n) => n,
        None => CIV_CHOOSE,
    };
    if doing != CIV_CHOOSE {
        return Mind::Busy(doing);
    }
    let roll: u32 = random.next_u32();
    if !near || (roll as u64) * 5 <= rand::WHOLE as u64 {
        if (roll as u64) * 2 >= rand::WHOLE as u64 {
            return Mind::Stand(random.next_u32());
        }
        let far: u32 = random.next_u32();
        let angle: u32 = random.next_u32();
        return Mind::Wander(far, angle);
    }
    Mind::Look(coin(random))
}

/// What a civilian does. Where it is given both orders and a way, the way is
/// taken after the orders.
#[derive(Clone, Copy, Debug, PartialEq, Eq)]
pub struct CivStep {
    pub orders: Orders,
    pub steer: Option<Steer>,
    pub homing: Homing,
}

/// How long a civilian stands.
pub open spec fn civ_stands(draw: u32) -> Clock {
    Clock::Drawn(Wait { draw, times: 5, tenths: 10 })
}

/// What making up its mind comes to, once it is known whether the spot can be
/// reached: the state, the clock, the animation and the place it makes for.
pub open spec fn civ_settled(mind: Mind, reachable: bool, d: rand::Drawn) -> (
    (i64, Clock, Option<i64>, Homing),
    rand::Drawn,
) {
    match mind {
        Mind::Busy(state) => ((state, Clock::Leave, None, Homing::Keep), d),
        Mind::Stand(draw) => ((CIV_STAND, civ_stands(draw), None, Homing::Keep), d),
        Mind::Look(anim) => (
            (CIV_LOOK, Clock::Tenths(CIV_LOOKING), Some(anim), Homing::Keep),
            d,
        ),
        Mind::Wander(_, _) => if reachable {
            ((CIV_WANDER, Clock::Tenths(CIV_WANDERING), None, Homing::Spot), d)
        } else {
            ((CIV_STAND, civ_stands(d.head()), None, Homing::Keep), d.after(1))
        },
    }
}

fn settle(mind: Mind, reachable: bool, random: &mut Random) -> (r: (
    i64,
    Clock,
    Option<i64>,
    Homing,
))
    ensures
        (r, final(random)@) == civ_settled(mind, reachable, old(random)@),
{
    match mind {
        Mind::Busy(state) => (state, Clock::Leave, None, Homing::Keep),
        Mind::Stand(draw) => (
            CIV_STAND,
            Clock::Drawn(Wait { draw, times: 5, tenths: 10 }),
            None,
            Homing::Keep,
        ),
        Mind::Look(anim) => (CIV_LOOK, Clock::Tenths(CIV_LOOKING), Some(anim), Homing::Keep),
        Mind::Wander(_, _) => {
            if reachable {
                return (CIV_WANDER, Clock::Tenths(CIV_WANDERING), None, Homing::Spot);
            }
            let draw: u32 = random.next_u32();
            (CIV_STAND, Clock::Drawn(Wait { draw, times: 5, tenths: 10 }), None, Homing::Keep)
        },
    }
}

/// What a civilian does in a state. `ticking` says that the clock has time left.
pub open spec fn civ_acts(
    settled: (i64, Clock, Option<i64>, Homing),
    chose: bool,
    near: bool,
    ticking: bool,
    way: Way,
    d: rand::Drawn,
) -> (CivStep, rand::Drawn) {
    let (state, clock, play, homing) = settled;
    let orders = Orders { state: Some(state), clock, play, ..Orders::quiet() };
    let still = Orders { gait: Some(STILL), ..orders };
    if (state == CIV_RUN || state == CIV_WANDER) && ticking {
        let manner = Manner { run: state == CIV_RUN, must_face: false, avoid: false };
        let (steer, after) = brain::going(way, manner, d);
        if steer.arrived {
            (
                CivStep {
                    orders: Orders { state: Some(CIV_CHOOSE), ..still },
                    steer: Some(steer),
                    homing: Homing::Drop,
                },
                after,
            )
        } else {
            (
                CivStep {
                    orders: if chose {
                        still
                    } else {
                        orders
                    },
                    steer: Some(steer),
                    homing,
                },
                after,
            )
        }
    } else if state == CIV_LOOK && ticking || state == CIV_STAND && ticking && !near {
        (CivStep { orders: still, steer: None, homing }, d)
    } else {
        (
            CivStep {
                orders: Orders { state: Some(CIV_CHOOSE), ..still },
                steer: None,
                homing: Homing::Drop,
            },
            d,
        )
    }
}

/// The whole of a civilian's turn, from a mind made up. A mind freshly made up
/// has set the clock, so that there is time left whatever there was before.
pub open spec fn civ_turn(
    mind: Mind,
    reachable: bool,
    near: bool,
    clock: i64,
    way: Way,
    d: rand::Drawn,
) -> (CivStep, rand::Drawn) {
    let (settled, after) = civ_settled(mind, reachable, d);
    let chose = !(mind is Busy);
    civ_acts(settled, chose, near, chose || clock > 0, way, after)
}

/// A civilian's turn. `reachable` says whether the spot that it drew can be
/// reached, `clock` is what was left on its clock, and `way` is the way to the
/// place that it then makes for.
pub fn civilian_goes_on(
    mind: Mind,
    reachable: bool,
    near: bool,
    clock: i64,
    way: &Way,
    random: &mut Random,
) -> (r: CivStep)
    ensures
        (r, final(random)@) == civ_turn(mind, reachable, near, clock, *way, old(random)@),
{
    let chose: bool = match mind {
        Mind::Busy(_) => false,
        _ => true,
    };
    let left: bool = chose || clock > 0;
    let (state, clock, play, homing) = settle(mind, reachable, random);
    let orders = Orders { state: Some(state), clock, play, ..Orders::none() };
    let still = Orders { gait: Some(STILL), ..orders };
    if (state == CIV_RUN || state == CIV_WANDER) && left {
        let manner = Manner { run: state == CIV_RUN, must_face: false, avoid: false };
        let steer = goto_core(way, &manner, random);
        if steer.arrived {
            return CivStep {
                orders: Orders { state: Some(CIV_CHOOSE), ..still },
                steer: Some(steer),
                homing: Homing::Drop,
            };
        }
        let orders = if chose {
            still
        } else {
            orders
        };
        return CivStep { orders, steer: Some(steer), homing };
    }
    if (state == CIV_LOOK && left) || (state == CIV_STAND && left && !near) {
        return CivStep { orders: still, steer: None, homing };
    }
    CivStep {
        orders: Orders { state: Some(CIV_CHOOSE), ..still },
        steer: None,
        homing: Homing::Drop,
    }
}

/// Doc does not scare a civilian, and neither does an empty street: it never
/// plays a scared animation at them, and without somebody near it never looks.
pub proof fn a_civilian_ignores_doc(
    state: Option<i64>,
    target: Option<(i64, i64)>,
    d: rand::Drawn,
)
    requires
        target matches Some((kind, dist)) ==> kind == DOC || dist >= measure::TWENTY,
    ensures
        !(civ_mind(state, civ_minds(target), d).0 is Look),
{
}

/// A civilian shrugs one time in five even at somebody near: on a roll of a
/// fifth or less it walks off.
pub proof fn a_civilian_shrugs(near: bool, d: rand::Drawn)
    requires
        d.head() * 5 <= rand::WHOLE,
    ensures
        civ_mind(None, near, d).0 is Wander,
{
}

/// Whatever state a civilian was in, its turn leaves it in one of its own, and
/// once its clock has run out a busy one goes back to choosing.
pub proof fn a_civilian_goes_back_to_choosing(
    state: i64,
    reachable: bool,
    near: bool,
    clock: i64,
    way: Way,
    d: rand::Drawn,
)
    requires
        clock <= 0,
    ensures
        civ_turn(Mind::Busy(state), reachable, near, clock, way, d).0.orders.state == Some(
            CIV_CHOOSE,
        ),
        civ_turn(Mind::Busy(state), reachable, near, clock, way, d).0.homing == Homing::Drop,
{
}

// ---------------------------------------------------------------------------
// What each choice comes to
// ---------------------------------------------------------------------------
/// What a samsmite does that does nothing.
pub open spec fn sam_waits(side: Option<bool>) -> SamStep {
    SamStep {
        blast: None,
        orders: Orders {
            gait: None,
            look: Look::Keep,
            clock: Clock::Leave,
            rounds: None,
            state: None,
            play: None,
            avoid: false,
        },
        side,
        dies: false,
    }
}

/// A charging samsmite goes off less than two units from its target: the
/// flaming one for seven points, and then it turns round and prowls; any other
/// for fifteen, and dies of it. Further off it runs on while the path is free,
/// its target no more than thirty-six units off and its leash not at an end;
/// else it stops and prowls, and turns round unless it is its leash.
pub proof fn a_charge_ends_in_a_blast(s: SamSenses, d: rand::Drawn)
    ensures
        s.dist < measure::TWO && s.kind == 215 ==> sam_step(Some(SAM_CHARGE), s, d) == (
            SamStep {
                blast: Some(7i64),
                orders: Orders {
                    gait: Some(STILL),
                    look: Look::Behind,
                    state: Some(SAM_PROWL),
                    ..sam_waits(s.side).orders
                },
                ..sam_waits(s.side)
            },
            d,
        ),
        s.dist < measure::TWO && s.kind != 215 ==> sam_step(Some(SAM_CHARGE), s, d) == (
            SamStep { blast: Some(15i64), dies: true, ..sam_waits(s.side) },
            d,
        ),
        measure::TWO <= s.dist <= measure::THIRTY_SIX && s.clear_charge && !s.out ==> sam_step(
            Some(SAM_CHARGE),
            s,
            d,
        ) == (
            SamStep {
                orders: Orders { gait: Some(RUN), ..sam_waits(s.side).orders },
                ..sam_waits(s.side)
            },
            d,
        ),
        measure::TWO <= s.dist && s.out ==> sam_step(Some(SAM_CHARGE), s, d) == (
            SamStep {
                orders: Orders {
                    gait: Some(STILL),
                    state: Some(SAM_PROWL),
                    ..sam_waits(s.side).orders
                },
                ..sam_waits(s.side)
            },
            d,
        ),
        measure::TWO <= s.dist && !s.out && (!s.clear_charge || s.dist > measure::THIRTY_SIX)
            ==> sam_step(Some(SAM_CHARGE), s, d) == (
            SamStep {
                orders: Orders {
                    gait: Some(STILL),
                    look: Look::Behind,
                    state: Some(SAM_PROWL),
                    ..sam_waits(s.side).orders
                },
                ..sam_waits(s.side)
            },
            d,
        ),
        SAM_PROWL == 18 && SAM_CHARGE == 19,
{
}

/// A prowling samsmite that waits walks on while its path is free, and turns
/// to its side where it is not. Once it has waited it charges what is less than
/// eighteen units off, less than half a unit above it, in its patch, ahead and
/// in sight. Else it walks for three tenths of a second and up to a second
/// more: astray, or to a spot of its pen where its target is not in its patch.
pub proof fn a_prowl_turns_into_a_charge(s: SamSenses, d: rand::Drawn)
    ensures
        s.clock > 0 && s.clear_prowl ==> sam_step(Some(SAM_PROWL), s, d) == (
            SamStep {
                orders: Orders { gait: Some(WALK), ..sam_waits(s.side).orders },
                ..sam_waits(s.side)
            },
            d,
        ),
        s.clock > 0 && !s.clear_prowl ==> (s.side matches Some(side) ==> sam_step(
            Some(SAM_PROWL),
            s,
            d,
        ) == (
            SamStep {
                orders: Orders { look: Look::Aside(side), ..sam_waits(s.side).orders },
                ..sam_waits(s.side)
            },
            d,
        )),
        s.clock > 0 && !s.clear_prowl && s.side is None ==> ({
            let side = d.head() * 2 < 0xffff_ffff;
            sam_step(Some(SAM_PROWL), s, d) == (
                SamStep {
                    orders: Orders { look: Look::Aside(side), ..sam_waits(s.side).orders },
                    ..sam_waits(Some(side))
                },
                d.after(1),
            )
        }),
        s.clock <= 0 && s.dist < measure::EIGHTEEN && s.above < measure::HALF && s.in_patch
            && s.ahead && s.sees ==> sam_step(Some(SAM_PROWL), s, d) == (
            SamStep {
                orders: Orders {
                    gait: Some(RUN),
                    look: Look::Target,
                    state: Some(SAM_CHARGE),
                    ..sam_waits(s.side).orders
                },
                ..sam_waits(s.side)
            },
            d,
        ),
        s.clock <= 0 && s.in_patch && (s.dist >= measure::EIGHTEEN || s.above >= measure::HALF
            || !s.ahead || !s.sees) ==> sam_step(Some(SAM_PROWL), s, d) == (
            SamStep {
                orders: Orders {
                    gait: Some(WALK),
                    clock: Clock::Drawn(Wait { draw: d.head(), times: 1, tenths: 3 }),
                    look: Look::Astray(d.after(1).head()),
                    ..sam_waits(s.side).orders
                },
                ..sam_waits(s.side)
            },
            d.after(2),
        ),
        s.clock <= 0 && !s.in_patch ==> sam_step(Some(SAM_PROWL), s, d) == (
            SamStep {
                orders: Orders {
                    gait: Some(WALK),
                    clock: Clock::Drawn(Wait { draw: d.head(), times: 1, tenths: 3 }),
                    look: Look::Spot(d.after(1).head(), d.after(2).head()),
                    ..sam_waits(s.side).orders
                },
                ..sam_waits(s.side)
            },
            d.after(3),
        ),
{
}

/// A samsmite that neither prowls nor charges begins to prowl, and does nothing
/// else that time.
pub proof fn a_samsmite_begins_to_prowl(state: Option<i64>, s: SamSenses, d: rand::Drawn)
    requires
        state != Some(18i64) && state != Some(19i64),
    ensures
        sam_step(state, s, d) == (
            SamStep {
                orders: Orders { state: Some(18i64), ..sam_waits(s.side).orders },
                ..sam_waits(s.side)
            },
            d,
        ),
{
}

/// A civilian minds whoever is less than twenty units off, but for Doc; it is
/// scared in one of two ways, as a coin has it.
pub proof fn a_civilian_minds_whoever_is_near(kind: i64, dist: i64, draw: u32)
    ensures
        civ_minds(Some((kind, dist))) <==> kind != 102 && dist < measure::TWENTY,
        !civ_minds(None),
        draw * 2 <= 0xffff_ffff ==> civ_coin(draw) == 19,
        draw * 2 > 0xffff_ffff ==> civ_coin(draw) == 18,
{
}

/// A noise makes a civilian that stands look up, for two seconds and scared;
/// one that looks or walks draws a spot to bolt to; and any other does not
/// care.
pub proof fn a_noise_startles_a_civilian(state: Option<i64>, d: rand::Drawn)
    ensures
        civ_heard(Some(20i64), d) == (
            Heard::Looks(
                Orders {
                    gait: None,
                    look: Look::Keep,
                    clock: Clock::Tenths(20),
                    rounds: None,
                    state: Some(16i64),
                    play: Some(civ_coin(d.head())),
                    avoid: false,
                },
            ),
            d.after(1),
        ),
        civ_heard(Some(16i64), d) == (Heard::Bolts(d.head(), d.after(1).head()), d.after(2)),
        civ_heard(Some(17i64), d) == (Heard::Bolts(d.head(), d.after(1).head()), d.after(2)),
        state != Some(20i64) && state != Some(16i64) && state != Some(17i64) ==> civ_heard(state, d)
            == (Heard::Nothing, d),
{
}

/// A civilian that has nothing to do makes up its mind with one roll. With
/// nobody near it stands on a half or more, and walks on less; with somebody
/// near it walks on a fifth or less, and looks on more.
pub proof fn a_civilian_makes_up_its_mind(busy: i64, d: rand::Drawn)
    ensures
        busy != 3 ==> civ_mind(Some(busy), true, d) == (Mind::Busy(busy), d) && civ_mind(
            Some(busy),
            false,
            d,
        ) == (Mind::Busy(busy), d),
        civ_mind(Some(3i64), true, d) == civ_mind(None, true, d),
        civ_mind(Some(3i64), false, d) == civ_mind(None, false, d),
        d.head() * 2 >= 0xffff_ffff ==> civ_mind(None, false, d) == (
            Mind::Stand(d.after(1).head()),
            d.after(2),
        ),
        d.head() * 2 < 0xffff_ffff ==> civ_mind(None, false, d) == (
            Mind::Wander(d.after(1).head(), d.after(2).head()),
            d.after(3),
        ),
        d.head() * 5 <= 0xffff_ffff ==> civ_mind(None, true, d) == (
            Mind::Wander(d.after(1).head(), d.after(2).head()),
            d.after(3),
        ),
        d.head() * 5 > 0xffff_ffff ==> civ_mind(None, true, d) == (
            Mind::Look(civ_coin(d.after(1).head())),
            d.after(2),
        ),
{
}

/// What a civilian does that stands in a state.
pub open spec fn civ_waits(state: i64, clock: Clock, play: Option<i64>) -> Orders {
    Orders {
        gait: Some(STILL),
        look: Look::Keep,
        clock,
        rounds: None,
        state: Some(state),
        play,
        avoid: false,
    }
}

/// A civilian that has made up its mind stands for a second and up to five
/// more, unless somebody is near; looks for two seconds; or walks for twenty to
/// the spot that it drew, and stands where that cannot be reached.
pub proof fn a_civilian_does_what_it_settled_on(
    draw: u32,
    anim: i64,
    far: u32,
    angle: u32,
    reachable: bool,
    near: bool,
    clock: i64,
    way: Way,
    d: rand::Drawn,
)
    ensures
        civ_turn(Mind::Stand(draw), reachable, false, clock, way, d) == (
            CivStep {
                orders: civ_waits(
                    20,
                    Clock::Drawn(Wait { draw, times: 5, tenths: 10 }),
                    None,
                ),
                steer: None,
                homing: Homing::Keep,
            },
            d,
        ),
        civ_turn(Mind::Stand(draw), reachable, true, clock, way, d) == (
            CivStep {
                orders: civ_waits(3, Clock::Drawn(Wait { draw, times: 5, tenths: 10 }), None),
                steer: None,
                homing: Homing::Drop,
            },
            d,
        ),
        civ_turn(Mind::Look(anim), reachable, near, clock, way, d) == (
            CivStep {
                orders: civ_waits(16, Clock::Tenths(20), Some(anim)),
                steer: None,
                homing: Homing::Keep,
            },
            d,
        ),
        civ_turn(Mind::Wander(far, angle), false, false, clock, way, d) == (
            CivStep {
                orders: civ_waits(
                    20,
                    Clock::Drawn(Wait { draw: d.head(), times: 5, tenths: 10 }),
                    None,
                ),
                steer: None,
                homing: Homing::Keep,
            },
            d.after(1),
        ),
        ({
            let manner = Manner { run: false, must_face: false, avoid: false };
            let (steer, after) = brain::going(way, manner, d);
            &&& !steer.arrived ==> civ_turn(
                Mind::Wander(far, angle),
                true,
                near,
                clock,
                way,
                d,
            ) == (
                CivStep {
                    orders: civ_waits(17, Clock::Tenths(200), None),
                    steer: Some(steer),
                    homing: Homing::Spot,
                },
                after,
            )
            &&& steer.arrived ==> civ_turn(Mind::Wander(far, angle), true, near, clock, way, d) == (
                CivStep {
                    orders: civ_waits(3, Clock::Tenths(200), None),
                    steer: Some(steer),
                    homing: Homing::Drop,
                },
                after,
            )
        }),
{
}

/// A civilian that is busy goes on while its clock runs: it runs or walks to
/// its place until it is there, looks, or stands while nobody is near. Then it
/// chooses again, and makes for no place any more.
pub proof fn a_busy_civilian_goes_on(
    state: i64,
    reachable: bool,
    near: bool,
    clock: i64,
    way: Way,
    d: rand::Drawn,
)
    ensures
        ({
            let turn = civ_turn(Mind::Busy(state), reachable, near, clock, way, d);
            let manner = Manner { run: state == 11, must_face: false, avoid: false };
            let (steer, after) = brain::going(way, manner, d);
            &&& clock > 0 && (state == 11 || state == 17) && !steer.arrived ==> turn == (
                CivStep {
                    orders: Orders { gait: None, ..civ_waits(state, Clock::Leave, None) },
                    steer: Some(steer),
                    homing: Homing::Keep,
                },
                after,
            )
            &&& clock > 0 && (state == 11 || state == 17) && steer.arrived ==> turn == (
                CivStep {
                    orders: civ_waits(3, Clock::Leave, None),
                    steer: Some(steer),
                    homing: Homing::Drop,
                },
                after,
            )
            &&& clock > 0 && (state == 16 || (state == 20 && !near)) ==> turn == (
                CivStep {
                    orders: civ_waits(state, Clock::Leave, None),
                    steer: None,
                    homing: Homing::Keep,
                },
                d,
            )
            &&& clock <= 0 || (state == 20 && near) || (state != 11 && state != 16 && state != 17
                && state != 20) ==> turn == (
                CivStep {
                    orders: civ_waits(3, Clock::Leave, None),
                    steer: None,
                    homing: Homing::Drop,
                },
                d,
            )
        }),
{
}

} // verus!
