//! What the walkers remember from one asking to the next.
use crate::brain;
use crate::brain::{Orders, Steer, STILL};
use crate::doganboy;
use crate::names::Names;
use crate::rand;
use crate::rand::Random;
use vstd::prelude::*;

verus! {

/// What is remembered of the walkers, by name. Headings, clocks and places are
/// kept by whoever has the geometry.
pub struct Walkers {
    /// What each does with its legs.
    pub gait: Names<i64>,
    /// The state of those that have one.
    pub state: Names<i64>,
    /// Rounds left in a burst.
    pub burst: Names<i64>,
    /// Those that watch their path, and those that watch for cliffs too.
    pub avoiding: Names<()>,
    pub cliffs: Names<()>,
    /// Those that have been told to fight.
    pub fighting: Names<()>,
    /// Those that run away.
    pub fleeing: Names<()>,
    /// Those that never move.
    pub turret: Names<()>,
    /// Those that are turning.
    pub turning: Names<()>,
    /// The side on which each goes round things.
    pub side: Names<bool>,
    /// Those that have been alerted.
    pub alerted: Names<()>,
}

/// A register with this written into it, where there is anything to write.
pub open spec fn noted<V>(m: Map<Seq<char>, V>, who: Seq<char>, v: Option<V>) -> Map<Seq<char>, V> {
    match v {
        Some(v) => m.insert(who, v),
        None => m,
    }
}

/// A register with a name put in or taken out, where there is anything to do.
pub open spec fn marked(m: Map<Seq<char>, ()>, who: Seq<char>, on: Option<bool>) -> Map<
    Seq<char>,
    (),
> {
    match on {
        Some(true) => m.insert(who, ()),
        Some(false) => m.remove(who),
        None => m,
    }
}

fn note(m: &mut Names<i64>, who: &str, v: Option<i64>)
    ensures
        final(m)@ == noted(old(m)@, who@, v),
{
    if let Some(v) = v {
        m.insert(who.to_owned(), v);
    }
}

fn put(m: &mut Names<()>, who: &str, on: Option<bool>)
    ensures
        final(m)@ == marked(old(m)@, who@, on),
{
    match on {
        Some(on) => {
            if on {
                m.insert(who.to_owned(), ());
            } else {
                m.remove(who);
            }
        },
        None => {},
    }
}

impl Walkers {
    /// Is nothing different from `other` but the legs, the state, the rounds
    /// and the watching?
    pub open spec fn same_mind(&self, other: &Walkers) -> bool {
        &&& self.fighting == other.fighting
        &&& self.fleeing == other.fleeing
        &&& self.turret == other.turret
        &&& self.turning == other.turning
        &&& self.side == other.side
        &&& self.alerted == other.alerted
    }

    /// Nobody.
    pub fn new() -> (w: Walkers)
        ensures
            w.gait@ == Map::<Seq<char>, i64>::empty(),
            w.state@ == Map::<Seq<char>, i64>::empty(),
            w.burst@ == Map::<Seq<char>, i64>::empty(),
            w.avoiding@ == Map::<Seq<char>, ()>::empty(),
            w.cliffs@ == Map::<Seq<char>, ()>::empty(),
            w.fighting@ == Map::<Seq<char>, ()>::empty(),
            w.fleeing@ == Map::<Seq<char>, ()>::empty(),
            w.turret@ == Map::<Seq<char>, ()>::empty(),
            w.turning@ == Map::<Seq<char>, ()>::empty(),
            w.side@ == Map::<Seq<char>, bool>::empty(),
            w.alerted@ == Map::<Seq<char>, ()>::empty(),
    {
        Walkers {
            gait: Names::new(),
            state: Names::new(),
            burst: Names::new(),
            avoiding: Names::new(),
            cliffs: Names::new(),
            fighting: Names::new(),
            fleeing: Names::new(),
            turret: Names::new(),
            turning: Names::new(),
            side: Names::new(),
            alerted: Names::new(),
        }
    }

    /// Take orders: the legs, the state, the rounds and the watching of the
    /// path. What they say of looks, clocks and animations is for others.
    pub fn obey(&mut self, who: &str, o: &Orders)
        ensures
            final(self).gait@ == noted(old(self).gait@, who@, o.gait),
            final(self).state@ == noted(old(self).state@, who@, o.state),
            final(self).burst@ == noted(old(self).burst@, who@, o.rounds),
            final(self).avoiding@ == (if o.avoid {
                old(self).avoiding@.insert(who@, ())
            } else {
                old(self).avoiding@
            }),
            final(self).cliffs == old(self).cliffs,
            final(self).same_mind(old(self)),
    {
        note(&mut self.gait, who, o.gait);
        note(&mut self.state, who, o.state);
        note(&mut self.burst, who, o.rounds);
        if o.avoid {
            self.avoiding.insert(who.to_owned(), ());
        }
    }

    /// Go as it has been worked out. Whoever watches its path on the way
    /// watches for cliffs too.
    pub fn go(&mut self, who: &str, s: &Steer)
        ensures
            final(self).gait@ == noted(old(self).gait@, who@, s.gait),
            final(self).avoiding@ == (if s.avoid {
                old(self).avoiding@.insert(who@, ())
            } else {
                old(self).avoiding@
            }),
            final(self).cliffs@ == (if s.avoid {
                old(self).cliffs@.insert(who@, ())
            } else {
                old(self).cliffs@
            }),
            final(self).state == old(self).state,
            final(self).burst == old(self).burst,
            final(self).same_mind(old(self)),
    {
        note(&mut self.gait, who, s.gait);
        if s.avoid {
            self.avoiding.insert(who.to_owned(), ());
            self.cliffs.insert(who.to_owned(), ());
        }
    }

    /// Do what the doganboy's tree has come to.
    pub fn obey_step(&mut self, who: &str, step: &doganboy::Step)
        ensures
            final(self).gait@ == noted(old(self).gait@, who@, step.orders.gait),
            final(self).state@ == noted(old(self).state@, who@, step.orders.state),
            final(self).burst@ == noted(old(self).burst@, who@, step.orders.rounds),
            final(self).avoiding@ == (if step.orders.avoid {
                old(self).avoiding@.insert(who@, ())
            } else {
                old(self).avoiding@
            }),
            final(self).fleeing@ == marked(old(self).fleeing@, who@, step.fleeing),
            final(self).cliffs == old(self).cliffs,
            final(self).fighting == old(self).fighting,
            final(self).turret == old(self).turret,
            final(self).turning == old(self).turning,
            final(self).side == old(self).side,
            final(self).alerted == old(self).alerted,
    {
        self.obey(who, &step.orders);
        put(&mut self.fleeing, who, step.fleeing);
    }

    /// Stop: the legs stand, and the path is not watched any more.
    pub fn stop(&mut self, who: &str)
        ensures
            final(self).gait@ == old(self).gait@.insert(who@, STILL),
            final(self).avoiding@ == old(self).avoiding@.remove(who@),
            final(self).cliffs == old(self).cliffs,
            final(self).state == old(self).state,
            final(self).burst == old(self).burst,
            final(self).same_mind(old(self)),
    {
        self.avoiding.remove(who);
        self.gait.insert(who.to_owned(), STILL);
    }

    /// Nail a walker down, or let it go.
    pub fn set_turret(&mut self, who: &str, on: bool)
        ensures
            final(self).turret@ == marked(old(self).turret@, who@, Some(on)),
            final(self).gait == old(self).gait,
            final(self).state == old(self).state,
            final(self).burst == old(self).burst,
            final(self).avoiding == old(self).avoiding,
            final(self).cliffs == old(self).cliffs,
            final(self).fighting == old(self).fighting,
            final(self).fleeing == old(self).fleeing,
            final(self).turning == old(self).turning,
            final(self).side == old(self).side,
            final(self).alerted == old(self).alerted,
    {
        put(&mut self.turret, who, Some(on));
    }

    /// Alert a walker. Whether it had not been alerted before: only then it
    /// shouts.
    pub fn alert(&mut self, who: &str) -> (first: bool)
        ensures
            first == !old(self).alerted@.contains_key(who@),
            final(self).alerted@ == old(self).alerted@.insert(who@, ()),
            final(self).gait == old(self).gait,
            final(self).state == old(self).state,
            final(self).burst == old(self).burst,
            final(self).avoiding == old(self).avoiding,
            final(self).cliffs == old(self).cliffs,
            final(self).fighting == old(self).fighting,
            final(self).fleeing == old(self).fleeing,
            final(self).turret == old(self).turret,
            final(self).turning == old(self).turning,
            final(self).side == old(self).side,
    {
        let first: bool = !self.alerted.has(who);
        self.alerted.insert(who.to_owned(), ());
        first
    }

    /// Take what looking at the path came to: where it is blocked the walker
    /// stands, and keeps the side that it goes round things on.
    pub fn meet(&mut self, who: &str, path: &Path)
        ensures
            match *path {
                Path::Free => *final(self) == *old(self),
                Path::Blocked(side, _) => {
                    &&& final(self).gait@ == old(self).gait@.insert(who@, STILL)
                    &&& final(self).side@ == old(self).side@.insert(who@, side)
                    &&& *final(self) == (Walkers {
                        gait: final(self).gait,
                        side: final(self).side,
                        ..*old(self)
                    })
                },
            },
    {
        if let Path::Blocked(side, _) = *path {
            self.gait.insert(who.to_owned(), STILL);
            self.side.insert(who.to_owned(), side);
        }
    }

    /// A walker has died: its legs and its fight are over.
    pub fn bury(&mut self, who: &str)
        ensures
            final(self).gait@ == old(self).gait@.remove(who@),
            final(self).fighting@ == old(self).fighting@.remove(who@),
            final(self).state == old(self).state,
            final(self).burst == old(self).burst,
            final(self).avoiding == old(self).avoiding,
            final(self).cliffs == old(self).cliffs,
            final(self).fleeing == old(self).fleeing,
            final(self).turret == old(self).turret,
            final(self).turning == old(self).turning,
            final(self).side == old(self).side,
            final(self).alerted == old(self).alerted,
    {
        self.gait.remove(who);
        self.fighting.remove(who);
    }
}

/// Obeying a step of the doganboy's tree, a turret's legs stand where they
/// stood: they are still, or as they were.
pub proof fn a_turret_s_legs_stand(
    s: doganboy::Senses,
    lands: bool,
    d: rand::Drawn,
    gait: Map<Seq<char>, i64>,
    who: Seq<char>,
)
    requires
        s.turret,
    ensures
        ({
            let now = noted(gait, who, doganboy::tree(s, lands, d).0.orders.gait);
            now == gait || now == gait.insert(who, STILL)
        }),
{
    doganboy::a_turret_never_moves(s, lands, d);
}

// ---------------------------------------------------------------------------
// Turning, and watching the path
// ---------------------------------------------------------------------------
/// How far off its heading a walker has to be to begin to turn, and how near it
/// has to come before it stops.
pub const FACING: i64 = 0x3fc5_c28f_5c28_f5c3;

pub const SQUARE: i64 = 0x3f94_7ae1_47ae_147b;

/// Does a walker face its heading? `off` is how far it is off.
pub fn faces(off: i64) -> (r: bool)
    ensures
        r == (off < FACING),
{
    off < FACING
}

/// Does a walker turn? `off` is how far it is off its heading. Once it has begun
/// it does not stop before it is square.
pub open spec fn turned(turning: bool, off: i64) -> bool {
    off > if turning {
        SQUARE
    } else {
        FACING
    }
}

/// Does a walker turn?
pub fn turns(turning: bool, off: i64) -> (r: bool)
    ensures
        r == turned(turning, off),
{
    if turning {
        off > SQUARE
    } else {
        off > FACING
    }
}

/// A walker that faces its heading does not begin to turn; between the two
/// thresholds one goes on with what it was doing, and outside of them it does
/// not matter what that was.
pub proof fn turning_has_two_thresholds(turning: bool, off: i64)
    ensures
        off < FACING ==> !turned(false, off),
        SQUARE < off <= FACING ==> turned(turning, off) == turning,
        off > FACING ==> turned(turning, off),
        off <= SQUARE ==> !turned(turning, off),
{
}

/// What looking at the path comes to.
#[derive(Clone, Copy, Debug, PartialEq, Eq, Structural)]
pub enum Path {
    /// It is free. The next look is in four tenths of a second.
    Free,
    /// It is blocked: the walker stands, turns a right angle to its side, and
    /// looks again in a second and up to three more, as the draw has it.
    Blocked(bool, u32),
}

pub open spec fn path_of(wall: bool, drop: bool, side: Option<bool>, d: rand::Drawn) -> (
    Path,
    rand::Drawn,
) {
    if !wall && !drop {
        (Path::Free, d)
    } else {
        let (s, after) = brain::tossed(side, d);
        (Path::Blocked(s, after.head()), after.after(1))
    }
}

/// Look at the path. `wall` says that something stands in it, and `drop` that
/// it ends at a cliff, for those that watch for one.
pub fn look_ahead(wall: bool, drop: bool, side: Option<bool>, random: &mut Random) -> (r: Path)
    ensures
        (r, final(random)@) == path_of(wall, drop, side, old(random)@),
{
    if !wall && !drop {
        return Path::Free;
    }
    let s: bool = brain::side_of(side, random);
    let draw: u32 = random.next_u32();
    Path::Blocked(s, draw)
}

/// Is a walker due to look at its path? It has to be moving, and the time for
/// its next look has to have come.
pub fn due(gait: Option<i64>, next: Option<i64>, clock: i64) -> (r: bool)
    ensures
        r == ((gait matches Some(g) && g > 0) && (next matches Some(t) ==> clock >= t)),
{
    let moving: bool = match gait {
        Some(g) => g > 0,
        None => false,
    };
    let come: bool = match next {
        Some(t) => clock >= t,
        None => true,
    };
    moving && come
}

/// May a shooter fire? `interval` is the time its weapon needs, if it needs
/// any, and `since` the time since it last fired, if it has. Whether the time
/// of this shot is to be remembered: where the weapon needs none it is not.
pub fn may_fire(interval: Option<i64>, since: Option<i64>) -> (r: (bool, bool))
    ensures
        r.1 == (r.0 && interval is Some),
        r.0 == (interval matches Some(i) ==> (since matches Some(s) ==> s > i)),
{
    match interval {
        None => (true, false),
        Some(i) => {
            let ready: bool = match since {
                Some(s) => s > i,
                None => true,
            };
            (ready, ready)
        },
    }
}

/// Does one see another? Within range and not here, within the cone, and with
/// nothing in between. `off` and `cone` are the cosines of the angle between
/// the two and of half the field of view.
pub fn line_of_sight(far: i64, range: i64, off: i64, cone: i64, clear: bool) -> (r: bool)
    ensures
        r == (0 < far <= range && off >= cone && clear),
{
    0 < far && far <= range && off >= cone && clear
}

/// Is an object on a spot, facing the right way? Both have to be strictly
/// within what is allowed.
pub fn on_spot(far: i64, radius: i64, off: i64, angle: i64) -> (r: bool)
    ensures
        r == (far < radius && off < angle),
{
    far < radius && off < angle
}

/// Where there is something to note it is noted, and nothing else changes;
/// where there is not, nothing does.
pub proof fn notes_are_taken<V>(
    m: Map<Seq<char>, V>,
    who: Seq<char>,
    v: V,
    marks: Map<Seq<char>, ()>,
    other: Seq<char>,
)
    ensures
        noted(m, who, Some(v)).contains_key(who) && noted(m, who, Some(v))[who] == v,
        other != who ==> (noted(m, who, Some(v)).contains_key(other) <==> m.contains_key(other)),
        other != who && m.contains_key(other) ==> noted(m, who, Some(v))[other] == m[other],
        noted(m, who, None) == m,
        marked(marks, who, Some(true)).contains_key(who),
        !marked(marks, who, Some(false)).contains_key(who),
        forall|on: bool|
            other != who ==> (#[trigger] marked(marks, who, Some(on)).contains_key(other)
                <==> marks.contains_key(other)),
        marked(marks, who, None) == marks,
{
}

/// A free path draws nothing. A wall or a cliff blocks it: a walker that has a
/// side keeps it, and one that has none tosses for it first; then one draw says
/// when it looks again.
pub proof fn a_path_is_blocked_by_either(wall: bool, drop: bool, side: bool, d: rand::Drawn)
    ensures
        path_of(false, false, Some(side), d) == (Path::Free, d),
        path_of(false, false, None, d) == (Path::Free, d),
        wall || drop ==> path_of(wall, drop, Some(side), d) == (
            Path::Blocked(side, d.head()),
            d.after(1),
        ),
        wall || drop ==> path_of(wall, drop, None, d) == (
            Path::Blocked(d.head() * 2 < 0xffff_ffff, d.after(1).head()),
            d.after(2),
        ),
{
}

/// The two thresholds are the doubles nearest to seventeen and to two
/// hundredths of a radian.
pub proof fn the_thresholds_are_angles()
    ensures
        FACING / 0x10_0000_0000_0000 == 1023 - 3,
        -50 <= 100 * (0x10_0000_0000_0000 + FACING % 0x10_0000_0000_0000) - 17
            * 0x80_0000_0000_0000 <= 50,
        SQUARE / 0x10_0000_0000_0000 == 1023 - 6,
        -50 <= 100 * (0x10_0000_0000_0000 + SQUARE % 0x10_0000_0000_0000) - 2
            * 0x400_0000_0000_0000 <= 50,
{
}

/// Walkers of the same mind fight, flee, stand nailed down, turn, keep to their
/// side and are alerted alike.
pub proof fn the_same_mind_is_the_same<'a>(a: &'a Walkers, b: &'a Walkers)
    requires
        a.same_mind(b),
    ensures
        a.fighting == b.fighting && a.fleeing == b.fleeing && a.turret == b.turret,
        a.turning == b.turning && a.side == b.side && a.alerted == b.alerted,
{
}

} // verus!
