//! The objects.
//!
//! An object, a *gob*, lives in an arena and is known by its place there. The
//! scripts reach objects by name, and names are not unique: registering an
//! object takes its name over from any other that had it, and the earlier ones
//! stay in the arena where no script can find them.
//!
//! Measures are of a type `F` that nothing here computes with.
use crate::tables;
use vstd::hash_map::StringHashMap;
use vstd::prelude::*;

verus! {

pub type Id = u32;

/// One object, as a scene graph describes it.
pub struct Gob<F> {
    pub name: String,
    /// The type, one of the `OBJ_` numbers.
    pub kind: i64,
    pub parent: Option<Id>,
    pub group: F,
    pub position: [F; 3],
    pub rotation: [F; 4],
    /// A model, a sound, a texture or a waypoint, as the type has it.
    pub resource: Option<String>,
    /// Four numbers whose meaning is set by the type.
    pub payload: [F; 4],
    pub hitpoints: i16,
    pub max_hitpoints: i16,
    /// A mask of the kinds of damage that hurt it.
    pub damage_filter: i16,
    /// Whether the script's creation handler has been called for it.
    pub created: bool,
    /// Whether it belongs to the menus' scene, and not to the world's.
    pub gui: bool,
    pub bbox_min: Option<[F; 3]>,
    pub bbox_max: Option<[F; 3]>,
    pub flag: F,
}

impl<F> Gob<F> {
    /// Has it a name, and so a place in the scripts' world?
    pub open spec fn named(self) -> bool {
        self.name@.len() > 0
    }

    /// Is this an object of which nothing has been said?
    pub open spec fn is_blank(self, zero: F) -> bool {
        &&& self.name@.len() == 0
        &&& self.kind == 0
        &&& self.parent is None
        &&& self.group == zero
        &&& self.position@ == seq![zero, zero, zero]
        &&& self.rotation@ == seq![zero, zero, zero, zero]
        &&& self.resource is None
        &&& self.payload@ == seq![zero, zero, zero, zero]
        &&& self.hitpoints == 0
        &&& self.max_hitpoints == 0
        &&& self.damage_filter == 0
        &&& !self.created
        &&& !self.gui
        &&& self.bbox_min is None
        &&& self.bbox_max is None
        &&& self.flag == zero
    }

    /// Has nothing been said of this object but what it is called, what it is,
    /// where it is and what it carries?
    pub open spec fn otherwise_blank(self, zero: F) -> bool {
        &&& self.parent is None
        &&& self.group == zero
        &&& self.hitpoints == 0
        &&& self.max_hitpoints == 0
        &&& self.damage_filter == 0
        &&& !self.created
        &&& !self.gui
        &&& self.bbox_min is None
        &&& self.bbox_max is None
        &&& self.flag == zero
    }

    /// An object of which nothing has been said.
    pub fn blank(zero: F) -> (g: Gob<F>) where F: Copy
        ensures
            g.is_blank(zero),
    {
        Gob {
            name: String::new(),
            kind: 0,
            parent: None,
            group: zero,
            position: [zero, zero, zero],
            rotation: [zero, zero, zero, zero],
            resource: None,
            payload: [zero, zero, zero, zero],
            hitpoints: 0,
            max_hitpoints: 0,
            damage_filter: 0,
            created: false,
            gui: false,
            bbox_min: None,
            bbox_max: None,
            flag: zero,
        }
    }
}

/// What a hit did, which is what decides whether the script hears of a death.
#[derive(Clone, Copy, Debug, PartialEq, Eq, Structural)]
pub enum Hit {
    /// Invulnerable, or already dead. Nothing happened at all.
    Ignored,
    Hurt,
    Died,
}

/// The hitpoints, the most it can have and the damage filter that an object is
/// registered with. A walker gets its scaled base, a hero what it always has,
/// and anything else keeps what it came with.
pub open spec fn outfit(kind: i64, scaled: i32, given: (i16, i16, i16)) -> (i16, i16, i16) {
    match tables::hero_of(kind) {
        Some(hero) => (hero.0, hero.0, hero.1),
        None => match tables::base_of(kind) {
            Some(base) => {
                let hp = tables::diff_scaled(scaled, base) as i16;
                (hp, hp, tables::FILTER_GOODGUY_SNIPER)
            },
            None => given,
        },
    }
}

/// A number brought into the range of an `i16`.
pub open spec fn saturated(n: int) -> i16 {
    if n < i16::MIN {
        i16::MIN
    } else if n > i16::MAX {
        i16::MAX
    } else {
        n as i16
    }
}

/// The hitpoints that are left when `n` are taken off: never below zero.
pub open spec fn hurt_to(hitpoints: i16, n: i16) -> i16 {
    let left = saturated(hitpoints - n);
    if left <= 0 {
        0
    } else {
        left
    }
}

/// The hitpoints after `n` are put back, up to the maximum. What is already at
/// zero is not healed at all.
pub open spec fn healed_to(hitpoints: i16, max: i16, n: i16) -> i16 {
    if hitpoints <= 0 {
        hitpoints
    } else {
        let more = saturated(hitpoints + n);
        if more < max {
            more
        } else {
            max
        }
    }
}

/// What a hit does to something with this filter and these hitpoints. A filter
/// of zero is invulnerable, and what is already at zero is not hit again.
pub open spec fn hit_of(filter: i16, hitpoints: i16, amount: i16) -> Hit {
    if filter == 0 || hitpoints <= 0 {
        Hit::Ignored
    } else if hurt_to(hitpoints, amount) == 0 {
        Hit::Died
    } else {
        Hit::Hurt
    }
}

/// A corpse stays a corpse: whatever has no hitpoints left is neither healed
/// nor hit, so that it dies once.
pub proof fn the_dead_stay_dead(max: i16, filter: i16, healing: i16, amount: i16)
    ensures
        healed_to(0, max, healing) == 0,
        hit_of(filter, 0, amount) == Hit::Ignored,
        hit_of(filter, healed_to(0, max, healing), amount) == Hit::Ignored,
{
}

/// What dies of a hit has no hitpoints left, and what is hurt by one still has
/// some; a hit that takes nothing off changes nothing, and no hit leaves fewer
/// than none.
pub proof fn a_hit_is_counted(filter: i16, hitpoints: i16, amount: i16)
    ensures
        hit_of(filter, hitpoints, amount) == Hit::Died ==> hurt_to(hitpoints, amount) == 0,
        hit_of(filter, hitpoints, amount) == Hit::Hurt ==> hurt_to(hitpoints, amount) > 0,
        hurt_to(hitpoints, amount) >= 0,
        hitpoints > 0 ==> hurt_to(hitpoints, 0) == hitpoints,
        0 < amount < hitpoints ==> hurt_to(hitpoints, amount) == hitpoints - amount,
        0 < hitpoints <= amount ==> hurt_to(hitpoints, amount) == 0,
{
}

fn saturate(n: i32) -> (r: i16)
    ensures
        r == saturated(n as int),
{
    if n < -32768 {
        -32768
    } else if n > 32767 {
        32767
    } else {
        n as i16
    }
}

pub struct World<F> {
    gobs: Vec<Gob<F>>,
    by_name: StringHashMap<Id>,
    generation: u64,
    difficulty: Option<F>,
    zero: F,
}

impl<F> World<F> {
    /// The arena: the objects in the order they were registered.
    pub closed spec fn gobs(&self) -> Seq<Gob<F>> {
        self.gobs@
    }

    /// Which object each name leads to.
    pub closed spec fn names(&self) -> Map<Seq<char>, Id> {
        self.by_name@
    }

    /// How often something has moved.
    pub closed spec fn moves(&self) -> u64 {
        self.generation
    }

    /// The difficulty, once a script has picked one.
    pub closed spec fn chosen(&self) -> Option<F> {
        self.difficulty
    }

    /// The number that stands where nothing has been said.
    pub closed spec fn nil(&self) -> F {
        self.zero
    }

    /// A name leads to an object that has it, and to the last of those.
    pub open spec fn wf(&self) -> bool {
        &&& self.gobs().len() <= 0x1_0000_0000
        &&& forall|n: Seq<char>| #[trigger]
            self.names().contains_key(n) ==> {
                &&& self.names()[n] < self.gobs().len()
                &&& self.gobs()[self.names()[n] as int].name@ == n
            }
        &&& forall|n: Seq<char>, i: int|
            #![trigger self.names().contains_key(n), self.gobs()[i]]
            self.names().contains_key(n) && n.len() > 0 && 0 <= i < self.gobs().len()
                && self.gobs()[i].name@ == n ==> i <= self.names()[n]
    }

    /// A world with nothing in it.
    pub fn new(zero: F) -> (w: World<F>)
        ensures
            w.wf(),
            w.gobs().len() == 0,
            w.names() == Map::<Seq<char>, Id>::empty(),
            w.moves() == 0,
            w.chosen() is None,
            w.nil() == zero,
    {
        World {
            gobs: Vec::new(),
            by_name: StringHashMap::new(),
            generation: 0,
            difficulty: None,
            zero,
        }
    }

    /// Put an object into the world, with the hitpoints of its type. `scaled`
    /// is what the difficulty makes of a walker's base, cut towards zero. What
    /// hangs off a part of the menus' scene belongs to that scene too.
    pub fn register(&mut self, gob: Gob<F>, scaled: i32) -> (id: Id)
        requires
            old(self).wf(),
            old(self).gobs().len() <= u32::MAX,
        ensures
            final(self).wf(),
            id == old(self).gobs().len(),
            ({
                let (hp, max, filter) = outfit(
                    gob.kind,
                    scaled,
                    (gob.hitpoints, gob.max_hitpoints, gob.damage_filter),
                );
                let parent_gui = gob.parent matches Some(p) && p < old(self).gobs().len()
                    && old(self).gobs()[p as int].gui;
                final(self).gobs() == old(self).gobs().push(
                    Gob {
                        hitpoints: hp,
                        max_hitpoints: max,
                        damage_filter: filter,
                        gui: gob.gui || parent_gui,
                        ..gob
                    },
                )
            }),
            final(self).names() == old(self).names().insert(gob.name@, id),
            final(self).moves() == old(self).moves(),
            final(self).chosen() == old(self).chosen(),
            final(self).nil() == old(self).nil(),
    {
        let mut gob = gob;
        match gob.parent {
            Some(p) => {
                if (p as usize) < self.gobs.len() && self.gobs[p as usize].gui {
                    gob.gui = true;
                }
            },
            None => {},
        }
        match tables::hero(gob.kind) {
            Some(hero) => {
                gob.hitpoints = hero.0;
                gob.max_hitpoints = hero.0;
                gob.damage_filter = hero.1;
            },
            None => match tables::base_hitpoints(gob.kind) {
                Some(base) => {
                    let hp: i16 = tables::diff_scale(scaled, base) as i16;
                    gob.hitpoints = hp;
                    gob.max_hitpoints = hp;
                    gob.damage_filter = tables::FILTER_GOODGUY_SNIPER;
                },
                None => {},
            },
        }
        let id: Id = self.gobs.len() as Id;
        self.by_name.insert(gob.name.clone(), id);
        self.gobs.push(gob);
        id
    }

    /// The difficulty in force: the one a script picked, or `usual`.
    pub fn difficulty(&self, usual: F) -> (d: F) where F: Copy
        ensures
            d == match self.chosen() {
                Some(d) => d,
                None => usual,
            },
    {
        match self.difficulty {
            Some(d) => d,
            None => usual,
        }
    }

    pub fn set_difficulty(&mut self, d: F)
        requires
            old(self).wf(),
        ensures
            final(self).wf(),
            final(self).chosen() == Some(d),
            final(self).gobs() == old(self).gobs(),
            final(self).names() == old(self).names(),
            final(self).moves() == old(self).moves(),
            final(self).nil() == old(self).nil(),
    {
        self.difficulty = Some(d);
    }

    /// The object at a place of the arena.
    pub fn get(&self, id: Id) -> (r: Option<&Gob<F>>)
        ensures
            match r {
                Some(g) => id < self.gobs().len() && *g == self.gobs()[id as int],
                None => id >= self.gobs().len(),
            },
    {
        if (id as usize) < self.gobs.len() {
            Some(&self.gobs[id as usize])
        } else {
            None
        }
    }

    /// The object that a name leads to.
    pub fn find(&self, name: &str) -> (r: Option<Id>)
        ensures
            match r {
                Some(id) => self.names().contains_key(name@) && id == self.names()[name@],
                None => !self.names().contains_key(name@),
            },
    {
        match self.by_name.get(name) {
            Some(id) => Some(*id),
            None => None,
        }
    }

    pub fn len(&self) -> (n: usize)
        ensures
            n == self.gobs().len(),
    {
        self.gobs.len()
    }

    pub fn is_empty(&self) -> (r: bool)
        ensures
            r == (self.gobs().len() == 0),
    {
        self.gobs.len() == 0
    }

    pub fn generation(&self) -> (n: u64)
        ensures
            n == self.moves(),
    {
        self.generation
    }

    /// Has this world the same names, objects and settings as `other`, but for
    /// the object at `id`?
    pub open spec fn only_at(&self, other: &World<F>, id: Id, gob: Gob<F>) -> bool {
        &&& self.gobs() == other.gobs().update(id as int, gob)
        &&& self.names() == other.names()
        &&& self.chosen() == other.chosen()
        &&& self.nil() == other.nil()
    }

    /// Is nothing at all different from `other`?
    pub open spec fn unchanged(&self, other: &World<F>) -> bool {
        &&& self.gobs() == other.gobs()
        &&& self.names() == other.names()
        &&& self.moves() == other.moves()
        &&& self.chosen() == other.chosen()
        &&& self.nil() == other.nil()
    }

    /// Forget every object. The count of moves and the difficulty stay.
    pub fn clear(&mut self)
        ensures
            final(self).wf(),
            final(self).gobs().len() == 0,
            final(self).names() == Map::<Seq<char>, Id>::empty(),
            final(self).moves() == old(self).moves(),
            final(self).chosen() == old(self).chosen(),
            final(self).nil() == old(self).nil(),
    {
        self.gobs.clear();
        self.by_name.clear();
    }
}

impl<F> World<F> {
    /// The object at a place of the arena, to change. Whoever keeps its name
    /// keeps the names in order.
    pub fn get_mut(&mut self, id: Id) -> (r: Option<&mut Gob<F>>)
        requires
            old(self).wf(),
        ensures
            match r {
                Some(g) => {
                    &&& id < old(self).gobs().len()
                    &&& *g == old(self).gobs()[id as int]
                    &&& final(self).only_at(old(self), id, *final(g))
                    &&& final(self).moves() == old(self).moves()
                    &&& final(g).name@ == old(self).gobs()[id as int].name@ ==> final(self).wf()
                },
                None => id >= old(self).gobs().len() && final(self).unchanged(old(self))
                    && final(self).wf(),
            },
    {
        if (id as usize) < self.gobs.len() {
            Some(&mut self.gobs[id as usize])
        } else {
            None
        }
    }

    /// Move an object. `still` says that `at` is where it stands already; then
    /// nothing has moved, and the count of moves stays.
    pub fn set_position(&mut self, id: Id, at: [F; 3], still: bool)
        requires
            old(self).wf(),
            old(self).moves() < u64::MAX,
        ensures
            final(self).wf(),
            if id < old(self).gobs().len() && !still {
                &&& final(self).only_at(
                    old(self),
                    id,
                    Gob { position: at, ..old(self).gobs()[id as int] },
                )
                &&& final(self).moves() == old(self).moves() + 1
            } else {
                final(self).unchanged(old(self))
            },
    {
        if (id as usize) < self.gobs.len() && !still {
            self.gobs[id as usize].position = at;
            self.generation = self.generation + 1;
        }
    }

    /// Turn an object, in the same way.
    pub fn set_rotation(&mut self, id: Id, q: [F; 4], still: bool)
        requires
            old(self).wf(),
            old(self).moves() < u64::MAX,
        ensures
            final(self).wf(),
            if id < old(self).gobs().len() && !still {
                &&& final(self).only_at(
                    old(self),
                    id,
                    Gob { rotation: q, ..old(self).gobs()[id as int] },
                )
                &&& final(self).moves() == old(self).moves() + 1
            } else {
                final(self).unchanged(old(self))
            },
    {
        if (id as usize) < self.gobs.len() && !still {
            self.gobs[id as usize].rotation = q;
            self.generation = self.generation + 1;
        }
    }

    /// Take `n` hitpoints off, and say whether that killed it.
    pub fn hurt(&mut self, id: Id, n: i16) -> (dead: bool)
        requires
            old(self).wf(),
        ensures
            final(self).wf(),
            final(self).moves() == old(self).moves(),
            if id < old(self).gobs().len() {
                let g = old(self).gobs()[id as int];
                &&& final(self).only_at(old(self), id, Gob { hitpoints: hurt_to(g.hitpoints, n), ..g })
                &&& dead == (hurt_to(g.hitpoints, n) == 0)
            } else {
                final(self).unchanged(old(self)) && !dead
            },
    {
        if (id as usize) >= self.gobs.len() {
            return false;
        }
        let had: i16 = self.gobs[id as usize].hitpoints;
        let left: i16 = saturate(had as i32 - n as i32);
        if left <= 0 {
            self.gobs[id as usize].hitpoints = 0;
            true
        } else {
            self.gobs[id as usize].hitpoints = left;
            false
        }
    }

    /// Put `n` hitpoints back, up to the maximum; but not into a corpse.
    pub fn heal(&mut self, id: Id, n: i16)
        requires
            old(self).wf(),
        ensures
            final(self).wf(),
            final(self).moves() == old(self).moves(),
            if id < old(self).gobs().len() {
                let g = old(self).gobs()[id as int];
                final(self).only_at(
                    old(self),
                    id,
                    Gob { hitpoints: healed_to(g.hitpoints, g.max_hitpoints, n), ..g },
                )
            } else {
                final(self).unchanged(old(self))
            },
    {
        if (id as usize) >= self.gobs.len() {
            return;
        }
        let had: i16 = self.gobs[id as usize].hitpoints;
        let max: i16 = self.gobs[id as usize].max_hitpoints;
        let now: i16 = if had <= 0 {
            had
        } else {
            let more: i16 = saturate(had as i32 + n as i32);
            if more < max {
                more
            } else {
                max
            }
        };
        self.gobs[id as usize].hitpoints = now;
    }

    /// Hit something, and say what that did.
    pub fn take_damage(&mut self, id: Id, amount: i16) -> (hit: Hit)
        requires
            old(self).wf(),
        ensures
            final(self).wf(),
            final(self).moves() == old(self).moves(),
            if id < old(self).gobs().len() {
                let g = old(self).gobs()[id as int];
                &&& hit == hit_of(g.damage_filter, g.hitpoints, amount)
                &&& if hit == Hit::Ignored {
                    final(self).unchanged(old(self))
                } else {
                    final(self).only_at(
                        old(self),
                        id,
                        Gob { hitpoints: hurt_to(g.hitpoints, amount), ..g },
                    )
                }
            } else {
                final(self).unchanged(old(self)) && hit == Hit::Ignored
            },
    {
        if (id as usize) >= self.gobs.len() {
            return Hit::Ignored;
        }
        if self.gobs[id as usize].damage_filter == 0 || self.gobs[id as usize].hitpoints <= 0 {
            return Hit::Ignored;
        }
        if self.hurt(id, amount) {
            Hit::Died
        } else {
            Hit::Hurt
        }
    }

    /// Give something a maximum and fill it. `scaled` is what the difficulty
    /// makes of the base, cut towards zero; where the outcome is below zero the
    /// base itself is kept.
    pub fn make_destructable(&mut self, id: Id, base: i32, scaled: i32)
        requires
            old(self).wf(),
        ensures
            final(self).wf(),
            final(self).moves() == old(self).moves(),
            if id < old(self).gobs().len() {
                let s = tables::diff_scaled(scaled, base) as i16;
                let hp = if s >= 0 {
                    s
                } else {
                    base as i16
                };
                final(self).only_at(
                    old(self),
                    id,
                    Gob {
                        hitpoints: hp,
                        max_hitpoints: hp,
                        damage_filter: tables::FILTER_GOODGUY_SNIPER,
                        ..old(self).gobs()[id as int]
                    },
                )
            } else {
                final(self).unchanged(old(self))
            },
    {
        if (id as usize) >= self.gobs.len() {
            return;
        }
        let s: i16 = tables::diff_scale(scaled, base) as i16;
        let hp: i16 = if s >= 0 {
            s
        } else {
            base as i16
        };
        self.gobs[id as usize].hitpoints = hp;
        self.gobs[id as usize].max_hitpoints = hp;
        self.gobs[id as usize].damage_filter = tables::FILTER_GOODGUY_SNIPER;
        assert(self.gobs@ =~= old(self).gobs@.update(
            id as int,
            Gob {
                hitpoints: hp,
                max_hitpoints: hp,
                damage_filter: tables::FILTER_GOODGUY_SNIPER,
                ..old(self).gobs@[id as int]
            },
        ));
    }
}

// ---------------------------------------------------------------------------
// Taking an object and all that hangs off it out of the world
// ---------------------------------------------------------------------------
/// The named children of `p` among the first `n` objects, in their order.
pub open spec fn kids<F>(gobs: Seq<Gob<F>>, p: Id, n: int) -> Seq<Id>
    decreases n,
{
    if n <= 0 {
        seq![]
    } else {
        let rest = kids(gobs, p, n - 1);
        if gobs[n - 1].parent == Some(p) && gobs[n - 1].named() {
            rest.push((n - 1) as Id)
        } else {
            rest
        }
    }
}

/// The children of the first `k` of a list, one brood behind the other.
pub open spec fn broods<F>(gobs: Seq<Gob<F>>, list: Seq<Id>, k: int) -> Seq<Id>
    decreases k,
{
    if k <= 0 {
        seq![]
    } else {
        broods(gobs, list, k - 1) + kids(gobs, list[k - 1], gobs.len() as int)
    }
}

/// The list of an object and all that hangs off it, nearest first: it begins
/// with the object, and goes on with the children of everything in it.
pub open spec fn is_subtree<F>(gobs: Seq<Gob<F>>, id: Id, list: Seq<Id>) -> bool {
    list == seq![id] + broods(gobs, list, list.len() as int)
}

/// The object that `c` hangs off, `n` steps up, through named objects.
pub open spec fn above<F>(gobs: Seq<Gob<F>>, c: Id, n: nat) -> Option<Id>
    decreases n,
{
    if n == 0 {
        Some(c)
    } else if c < gobs.len() && gobs[c as int].named() {
        match gobs[c as int].parent {
            Some(p) => above(gobs, p, (n - 1) as nat),
            None => None,
        }
    } else {
        None
    }
}

/// Does `c` hang off `id`, or is it `id`?
pub open spec fn hangs_off<F>(gobs: Seq<Gob<F>>, c: Id, id: Id) -> bool {
    exists|n: nat| #[trigger] above(gobs, c, n) == Some(id)
}

/// Does an object hang off itself?
pub open spec fn looped<F>(gobs: Seq<Gob<F>>, id: Id) -> bool {
    exists|n: nat| n > 0 && #[trigger] above(gobs, id, n) == Some(id)
}

/// The names of the first `k` of a list, of those that have one.
pub open spec fn names_of<F>(gobs: Seq<Gob<F>>, list: Seq<Id>, k: int) -> Seq<Seq<char>>
    decreases k,
{
    if k <= 0 {
        seq![]
    } else {
        let rest = names_of(gobs, list, k - 1);
        let id = list[k - 1];
        if id < gobs.len() && gobs[id as int].named() {
            rest.push(gobs[id as int].name@)
        } else {
            rest
        }
    }
}

proof fn kids_are_kids<F>(gobs: Seq<Gob<F>>, p: Id, n: int)
    requires
        0 <= n <= gobs.len() <= 0x1_0000_0000,
    ensures
        forall|k: int|
            0 <= k < kids(gobs, p, n).len() ==> {
                let c = #[trigger] kids(gobs, p, n)[k];
                c < n && gobs[c as int].parent == Some(p) && gobs[c as int].named()
            },
        forall|c: int|
            0 <= c < n && (#[trigger] gobs[c]).parent == Some(p) && gobs[c].named() ==> kids(
                gobs,
                p,
                n,
            ).contains(c as Id),
        kids(gobs, p, n).no_duplicates(),
    decreases n,
{
    if n > 0 {
        kids_are_kids(gobs, p, n - 1);
        let rest = kids(gobs, p, n - 1);
        let all = kids(gobs, p, n);
        assert forall|c: int|
            0 <= c < n && (#[trigger] gobs[c]).parent == Some(p) && gobs[c].named() implies all.contains(
            c as Id,
        ) by {
            if c == n - 1 {
                assert(all[all.len() - 1] == c as Id);
            } else {
                assert(rest.contains(c as Id));
                let k = rest.index_of(c as Id);
                assert(all[k] == c as Id);
            }
        }
    }
}

proof fn broods_prefix<F>(gobs: Seq<Gob<F>>, a: Seq<Id>, b: Seq<Id>, k: int)
    requires
        k <= a.len(),
        k <= b.len(),
        forall|i: int| 0 <= i < k ==> a[i] == b[i],
    ensures
        broods(gobs, a, k) == broods(gobs, b, k),
    decreases k,
{
    if k > 0 {
        broods_prefix(gobs, a, b, k - 1);
    }
}

proof fn distinct_below(s: Seq<Id>, n: nat)
    requires
        s.no_duplicates(),
        forall|k: int| 0 <= k < s.len() ==> #[trigger] s[k] < n,
    ensures
        s.len() <= n,
    decreases n,
{
    if n == 0 {
        if s.len() > 0 {
            assert(s[0] < 0);
        }
    } else if s.contains((n - 1) as Id) && n - 1 <= u32::MAX {
        let at = s.index_of((n - 1) as Id);
        let rest = s.remove(at);
        assert forall|k: int| 0 <= k < rest.len() implies #[trigger] rest[k] < n - 1 by {
            let from = if k < at {
                k
            } else {
                k + 1
            };
            assert(rest[k] == s[from]);
            assert(s[from] != s[at]);
        }
        assert(rest.no_duplicates()) by {
            assert forall|i: int, j: int| 0 <= i < j < rest.len() implies rest[i] != rest[j] by {
                let fi = if i < at {
                    i
                } else {
                    i + 1
                };
                let fj = if j < at {
                    j
                } else {
                    j + 1
                };
                assert(rest[i] == s[fi] && rest[j] == s[fj]);
            }
        }
        distinct_below(rest, (n - 1) as nat);
    } else {
        assert forall|k: int| 0 <= k < s.len() implies #[trigger] s[k] < n - 1 by {
            if s[k] == n - 1 {
                assert(s.contains((n - 1) as Id));
            }
        }
        distinct_below(s, (n - 1) as nat);
    }
}

/// Where the members of a subtree come from: each but the first is a named
/// child of one that stands before it, and all hang off the first.
spec fn rooted<F>(gobs: Seq<Gob<F>>, id: Id, list: Seq<Id>, done: int) -> bool {
    &&& list.len() > 0
    &&& list[0] == id
    &&& list.no_duplicates()
    &&& forall|k: int|
        0 < k < list.len() ==> {
            &&& (#[trigger] list[k]) < gobs.len()
            &&& gobs[list[k] as int].named()
            &&& exists|j: int|
                0 <= j < done && j < list.len() && gobs[list[k] as int].parent == Some(
                    #[trigger] list[j],
                )
        }
    &&& forall|k: int| 0 <= k < list.len() ==> hangs_off(gobs, #[trigger] list[k], id)
}

/// One more brood keeps a list rooted, unless the object hangs off itself.
proof fn rooted_grows<F>(gobs: Seq<Gob<F>>, id: Id, list: Seq<Id>, i: int)
    requires
        gobs.len() <= 0x1_0000_0000,
        !looped(gobs, id),
        rooted(gobs, id, list, i),
        0 <= i < list.len(),
    ensures
        rooted(gobs, id, list + kids(gobs, list[i], gobs.len() as int), i + 1),
{
    let p = list[i];
    let brood = kids(gobs, p, gobs.len() as int);
    let all = list + brood;
    kids_are_kids(gobs, p, gobs.len() as int);
    let up = choose|n: nat| above(gobs, p, n) == Some(id);
    assert forall|k: int| 0 <= k < brood.len() implies above(gobs, #[trigger] brood[k], up + 1)
        == Some(id) by {
        assert(above(gobs, p, (up + 1 - 1) as nat) == Some(id));
    }
    assert forall|k: int, m: int| 0 <= k < list.len() && 0 <= m < brood.len() implies list[k]
        != brood[m] by {
        let c = brood[m];
        if list[k] == c {
            if k == 0 {
                assert(above(gobs, id, up + 1) == Some(id));
                assert(looped(gobs, id));
            } else {
                let j = choose|j: int|
                    0 <= j < i && j < list.len() && gobs[list[k] as int].parent == Some(
                        #[trigger] list[j],
                    );
                assert(list[j] == list[i]);
            }
        }
    }
    assert forall|a: int, b: int| 0 <= a < b < all.len() implies all[a] != all[b] by {
        if b < list.len() {
        } else if a < list.len() {
            assert(all[b] == brood[b - list.len()]);
        } else {
            assert(all[a] == brood[a - list.len()]);
            assert(all[b] == brood[b - list.len()]);
        }
    }
    assert forall|k: int| 0 < k < all.len() implies {
        &&& (#[trigger] all[k]) < gobs.len()
        &&& gobs[all[k] as int].named()
        &&& exists|j: int|
            0 <= j < i + 1 && j < all.len() && gobs[all[k] as int].parent == Some(
                #[trigger] all[j],
            )
    } by {
        if k < list.len() {
            let j = choose|j: int|
                0 <= j < i && j < list.len() && gobs[list[k] as int].parent == Some(
                    #[trigger] list[j],
                );
            assert(all[j] == list[j]);
        } else {
            assert(all[k] == brood[k - list.len()]);
            assert(all[i] == p);
        }
    }
    assert forall|k: int| 0 <= k < all.len() implies hangs_off(gobs, #[trigger] all[k], id) by {
        if k < list.len() {
            assert(all[k] == list[k]);
        } else {
            assert(all[k] == brood[k - list.len()]);
            assert(above(gobs, all[k], up + 1) == Some(id));
        }
    }
    assert(all[0] == list[0]);
    assert(all.no_duplicates());
}

proof fn rooted_is_short<F>(gobs: Seq<Gob<F>>, id: Id, list: Seq<Id>, i: int)
    requires
        rooted(gobs, id, list, i),
    ensures
        list.len() <= gobs.len() + 1,
{
    let rest = list.drop_first();
    assert forall|k: int| 0 <= k < rest.len() implies #[trigger] rest[k] < gobs.len() by {
        assert(rest[k] == list[k + 1]);
    }
    assert(rest.no_duplicates()) by {
        assert forall|a: int, b: int| 0 <= a < b < rest.len() implies rest[a] != rest[b] by {
            assert(rest[a] == list[a + 1] && rest[b] == list[b + 1]);
        }
    }
    distinct_below(rest, gobs.len());
}

impl<F> World<F> {
    /// The object `id` and all that hangs off it.
    fn subtree(&self, id: Id) -> (list: Vec<Id>)
        requires
            self.gobs().len() <= 0x1_0000_0000,
            !looped(self.gobs(), id),
        ensures
            is_subtree(self.gobs(), id, list@),
            list@.no_duplicates(),
            forall|c: Id| list@.contains(c) <==> hangs_off(self.gobs(), c, id),
    {
        let ghost gobs = self.gobs();
        let n: usize = self.gobs.len();
        let mut list: Vec<Id> = Vec::new();
        list.push(id);
        let mut i: usize = 0;
        proof {
            assert(above(gobs, id, 0) == Some(id));
            assert(list@ == seq![id] + broods(gobs, list@, 0));
            assert(rooted(gobs, id, list@, 0)) by {
                assert(list@[0] == id);
            }
            rooted_is_short(gobs, id, list@, 0);
        }
        while i < list.len()
            invariant
                gobs == self.gobs(),
                gobs == self.gobs@,
                n == gobs.len() <= 0x1_0000_0000,
                !looped(gobs, id),
                i <= list@.len() <= n + 1,
                rooted(gobs, id, list@, i as int),
                list@ == seq![id] + broods(gobs, list@, i as int),
            decreases n + 1 - i,
        {
            let p: Id = list[i];
            let ghost before = list@;
            let mut c: usize = 0;
            while c < n
                invariant
                    gobs == self.gobs@,
                    n == gobs.len() <= 0x1_0000_0000,
                    c <= n,
                    list@ == before + kids(gobs, p, c as int),
                decreases n - c,
            {
                let gob = &self.gobs[c];
                let child: bool = match gob.parent {
                    Some(q) => q == p && !gob.name.as_str().is_empty(),
                    None => false,
                };
                if child {
                    list.push(c as Id);
                    assert(list@ == before + kids(gobs, p, c + 1));
                }
                c = c + 1;
            }
            proof {
                rooted_grows(gobs, id, before, i as int);
                rooted_is_short(gobs, id, list@, i + 1);
                broods_prefix(gobs, before, list@, i as int);
                assert(list@[i as int] == p);
                assert(broods(gobs, list@, i + 1) == broods(gobs, before, i as int) + kids(
                    gobs,
                    p,
                    n as int,
                ));
                assert(list@ == seq![id] + broods(gobs, list@, i + 1));
            }
            i = i + 1;
        }
        proof {
            assert forall|c: Id| list@.contains(c) <==> hangs_off(gobs, c, id) by {
                if list@.contains(c) {
                    assert(hangs_off(gobs, list@[list@.index_of(c)], id));
                }
                if hangs_off(gobs, c, id) {
                    let up = choose|up: nat| above(gobs, c, up) == Some(id);
                    subtree_holds(gobs, id, list@, c, up);
                }
            }
        }
        list
    }

    /// The names of an object and of everything that hangs off it.
    pub fn family(&self, id: Id) -> (out: Vec<String>)
        requires
            self.wf(),
            !looped(self.gobs(), id),
        ensures
            exists|list: Seq<Id>|
                {
                    &&& is_subtree(self.gobs(), id, list)
                    &&& list.no_duplicates()
                    &&& forall|c: Id| #[trigger]
                        list.contains(c) <==> hangs_off(self.gobs(), c, id)
                    &&& out@.map_values(|s: String| s@) == #[trigger] names_of(
                        self.gobs(),
                        list,
                        list.len() as int,
                    )
                },
    {
        let list = self.subtree(id);
        let mut out: Vec<String> = Vec::new();
        let n: usize = list.len();
        let mut k: usize = 0;
        while k < n
            invariant
                n == list@.len(),
                k <= n,
                out@.map_values(|s: String| s@) == names_of(self.gobs@, list@, k as int),
            decreases n - k,
        {
            let at: Id = list[k];
            if (at as usize) < self.gobs.len() && !self.gobs[at as usize].name.as_str().is_empty() {
                let name = self.gobs[at as usize].name.clone();
                let ghost so_far = out@;
                out.push(name);
                assert(out@.map_values(|s: String| s@) == so_far.map_values(
                    |s: String| s@,
                ).push(name@));
            }
            k += 1;
        }
        out
    }

    /// Take an object and everything that hangs off it out of the world, and
    /// say what went: the names, so that the scripts' own globals can go too.
    ///
    /// The places in the arena stay, because they are what objects are known
    /// by. They are emptied, and their names lead nowhere: what is destroyed
    /// cannot be found, drawn or hit, and nobody who held a place gets a
    /// different object back.
    pub fn destroy(&mut self, id: Id) -> (gone: Vec<String>) where F: Copy
        requires
            old(self).wf(),
            !looped(old(self).gobs(), id),
            old(self).moves() < u64::MAX,
        ensures
            final(self).wf(),
            final(self).gobs().len() == old(self).gobs().len(),
            forall|j: int|
                0 <= j < old(self).gobs().len() ==> if hangs_off(old(self).gobs(), j as Id, id)
                    && old(self).gobs()[j].named() {
                    (#[trigger] final(self).gobs()[j]).is_blank(old(self).nil())
                } else {
                    final(self).gobs()[j] == old(self).gobs()[j]
                },
            forall|n: Seq<char>| #[trigger]
                final(self).names().contains_key(n) <==> old(self).names().contains_key(n) && !(
                n.len() > 0 && hangs_off(old(self).gobs(), old(self).names()[n], id)),
            forall|n: Seq<char>| #[trigger]
                final(self).names().contains_key(n) ==> final(self).names()[n]
                    == old(self).names()[n],
            exists|list: Seq<Id>|
                {
                    &&& is_subtree(old(self).gobs(), id, list)
                    &&& list.no_duplicates()
                    &&& forall|c: Id| #[trigger]
                        list.contains(c) <==> hangs_off(old(self).gobs(), c, id)
                    &&& gone@.map_values(|s: String| s@) == #[trigger] names_of(
                        old(self).gobs(),
                        list,
                        list.len() as int,
                    )
                },
            final(self).moves() == old(self).moves() + 1,
            final(self).chosen() == old(self).chosen(),
            final(self).nil() == old(self).nil(),
    {
        let list = self.subtree(id);
        let ghost gobs = self.gobs();
        let ghost names = self.names();
        let ghost all = list@;
        let mut gone: Vec<String> = Vec::new();
        let mut k: usize = 0;
        while k < list.len()
            invariant
                gobs == old(self).gobs(),
                names == old(self).names(),
                old(self).wf(),
                all == list@,
                all.no_duplicates(),
                k <= all.len(),
                self.gobs@.len() == gobs.len(),
                self.zero == old(self).zero,
                self.generation == old(self).generation,
                self.difficulty == old(self).difficulty,
                forall|j: int|
                    0 <= j < gobs.len() ==> if all.take(k as int).contains(j as Id)
                        && gobs[j].named() {
                        (#[trigger] self.gobs@[j]).is_blank(old(self).zero)
                    } else {
                        self.gobs@[j] == gobs[j]
                    },
                forall|n: Seq<char>| #[trigger]
                    self.by_name@.contains_key(n) <==> names.contains_key(n) && !(n.len() > 0
                        && all.take(k as int).contains(names[n])),
                forall|n: Seq<char>| #[trigger]
                    self.by_name@.contains_key(n) ==> self.by_name@[n] == names[n],
                gone@.map_values(|s: String| s@) == names_of(gobs, all, k as int),
            decreases all.len() - k,
        {
            let at: Id = list[k];
            let ghost before = all.take(k as int);
            let ghost after = all.take(k + 1);
            proof {
                assert(after == before.push(at));
                assert(!before.contains(at)) by {
                    if before.contains(at) {
                        let m = before.index_of(at);
                        assert(all[m] == all[k as int]);
                    }
                }
                assert forall|c: Id| after.contains(c) <==> before.contains(c) || c == at by {
                    if before.contains(c) {
                        assert(after[before.index_of(c)] == c);
                    }
                    assert(after[k as int] == at);
                }
            }
            if (at as usize) < self.gobs.len() && !self.gobs[at as usize].name.as_str().is_empty() {
                let name = self.gobs[at as usize].name.clone();
                let blank = Gob::blank(self.zero);
                self.gobs.set(at as usize, blank);
                let led: bool = match self.by_name.get(name.as_str()) {
                    Some(to) => *to == at,
                    None => false,
                };
                if led {
                    self.by_name.remove(name.as_str());
                }
                let ghost so_far = gone@;
                gone.push(name);
                proof {
                    assert(gone@.map_values(|s: String| s@) == so_far.map_values(
                        |s: String| s@,
                    ).push(name@));
                }
            }
            k = k + 1;
        }
        self.generation = self.generation + 1;
        proof {
            assert(all.take(all.len() as int) == all);
            assert forall|n: Seq<char>| #[trigger] self.names().contains_key(n) implies {
                &&& self.names()[n] < self.gobs().len()
                &&& self.gobs()[self.names()[n] as int].name@ == n
            } by {
                assert(self.gobs@[names[n] as int].name@ == n);
            }
        }
        gone
    }
}

/// Whatever hangs off the first of a subtree is in it.
proof fn subtree_holds<F>(gobs: Seq<Gob<F>>, id: Id, list: Seq<Id>, c: Id, up: nat)
    requires
        gobs.len() <= 0x1_0000_0000,
        is_subtree(gobs, id, list),
        above(gobs, c, up) == Some(id),
    ensures
        list.contains(c),
    decreases up,
{
    if up == 0 {
        assert(list[0] == id);
    } else {
        let p = gobs[c as int].parent->0;
        subtree_holds(gobs, id, list, p, (up - 1) as nat);
        kids_are_kids(gobs, p, gobs.len() as int);
        assert(gobs[c as int].parent == Some(p));
        broods_hold(gobs, list, list.index_of(p), list.len() as int, c);
        let all = broods(gobs, list, list.len() as int);
        assert(list[all.index_of(c) + 1] == c);
    }
}

/// A child of one of the first `k` is in their broods.
proof fn broods_hold<F>(gobs: Seq<Gob<F>>, list: Seq<Id>, i: int, k: int, c: Id)
    requires
        0 <= i < k <= list.len(),
        kids(gobs, list[i], gobs.len() as int).contains(c),
    ensures
        broods(gobs, list, k).contains(c),
    decreases k,
{
    let rest = broods(gobs, list, k - 1);
    let last = kids(gobs, list[k - 1], gobs.len() as int);
    let all = broods(gobs, list, k);
    if i == k - 1 {
        assert(all[rest.len() + last.index_of(c)] == c);
    } else {
        broods_hold(gobs, list, i, k - 1, c);
        assert(all[rest.index_of(c)] == c);
    }
}


// ---------------------------------------------------------------------------
// What hits and healing come to
// ---------------------------------------------------------------------------
/// Taking hitpoints off leaves the difference, and none where it would be
/// fewer; putting them back leaves the sum, and the maximum where it would be
/// more, but nothing is put back into a corpse.
pub proof fn hitpoints_add_up(hitpoints: i16, max: i16, n: i16)
    ensures
        n >= hitpoints ==> hurt_to(hitpoints, n) == 0,
        n < hitpoints && hitpoints - n <= i16::MAX ==> hurt_to(hitpoints, n) == hitpoints - n,
        hitpoints - n > i16::MAX ==> hurt_to(hitpoints, n) == i16::MAX,
        hitpoints <= 0 ==> healed_to(hitpoints, max, n) == hitpoints,
        hitpoints > 0 && hitpoints + n <= max ==> healed_to(hitpoints, max, n) == hitpoints + n,
        hitpoints > 0 && hitpoints + n > max ==> healed_to(hitpoints, max, n) == max,
{
}

/// Whoever is vulnerable and alive dies of a hit that takes all it has, and is
/// hurt by any other; whoever is not ignores it.
pub proof fn a_hit_kills_or_hurts(filter: i16, hitpoints: i16, amount: i16)
    ensures
        filter == 0 ==> hit_of(filter, hitpoints, amount) == Hit::Ignored,
        hitpoints <= 0 ==> hit_of(filter, hitpoints, amount) == Hit::Ignored,
        filter != 0 && hitpoints > 0 && amount >= hitpoints ==> hit_of(filter, hitpoints, amount)
            == Hit::Died,
        filter != 0 && hitpoints > 0 && amount < hitpoints ==> hit_of(filter, hitpoints, amount)
            == Hit::Hurt,
{
}

/// A hero is registered with the hitpoints and the filter of its row, whatever
/// the difficulty and whatever it came with; a walker with its scaled base, and
/// at least one, and the filter of what the player hurts; and anything else
/// with what it came with.
pub proof fn everybody_is_fitted_out(i: int, kind: i64, scaled: i32, given: (i16, i16, i16))
    ensures
        0 <= i < 3 ==> outfit(tables::PLAYER@[i].0, scaled, given) == (
            tables::PLAYER@[i].1,
            tables::PLAYER@[i].1,
            tables::PLAYER@[i].2,
        ),
        0 <= i < 19 && 0 < scaled <= i16::MAX ==> outfit(
            tables::BASE_HITPOINTS@[i].0,
            scaled,
            given,
        ) == (scaled as i16, scaled as i16, 9i16),
        0 <= i < 19 ==> outfit(tables::BASE_HITPOINTS@[i].0, 0, given) == (1i16, 1i16, 9i16),
        (forall|j: int| 0 <= j < 3 ==> (#[trigger] tables::PLAYER@[j]).0 != kind) && (forall|j: int|
            0 <= j < 19 ==> (#[trigger] tables::BASE_HITPOINTS@[j]).0 != kind) ==> outfit(
            kind,
            scaled,
            given,
        ) == given,
{
    tables::every_hero_is_found(0, kind);
    tables::every_walker_is_found(0, kind);
    if 0 <= i < 3 {
        tables::every_hero_is_found(i, kind);
    }
    if 0 <= i < 19 {
        tables::every_walker_is_found(i, kind);
        let k = tables::BASE_HITPOINTS@[i].0;
        assert(forall|a: int|
            0 <= a < 19 ==> (#[trigger] tables::BASE_HITPOINTS@[a]).0 >= 200
                && tables::BASE_HITPOINTS@[a].2 > 0);
        assert(forall|b: int| 0 <= b < 3 ==> (#[trigger] tables::PLAYER@[b]).0 < 200);
        tables::every_hero_is_found(0, k);
    }
}

// ---------------------------------------------------------------------------
// What hangs off what
// ---------------------------------------------------------------------------
/// Do the objects of a list hang off one another, each off the next, where each
/// but the last has a name?
pub open spec fn chained<F>(gobs: Seq<Gob<F>>, way: Seq<Id>) -> bool {
    &&& way.len() > 0
    &&& forall|k: int|
        0 <= k < way.len() - 1 ==> {
            &&& (#[trigger] way[k]) < gobs.len()
            &&& gobs[way[k] as int].name@.len() > 0
            &&& gobs[way[k] as int].parent == Some(way[k + 1])
        }
}

proof fn chain_tail<F>(gobs: Seq<Gob<F>>, way: Seq<Id>)
    requires
        chained(gobs, way),
        way.len() > 1,
    ensures
        chained(gobs, way.skip(1)),
        way.skip(1)[0] == way[1],
        way.skip(1).last() == way.last(),
{
    let rest = way.skip(1);
    assert forall|k: int| 0 <= k < rest.len() - 1 implies {
        &&& (#[trigger] rest[k]) < gobs.len()
        &&& gobs[rest[k] as int].name@.len() > 0
        &&& gobs[rest[k] as int].parent == Some(rest[k + 1])
    } by {
        assert(rest[k] == way[k + 1] && rest[k + 1] == way[k + 2]);
    }
}

proof fn above_on_the_chain<F>(gobs: Seq<Gob<F>>, way: Seq<Id>, n: nat)
    requires
        chained(gobs, way),
        n < way.len(),
    ensures
        above(gobs, way[0], n) == Some(way[n as int]),
    decreases n,
{
    if n > 0 {
        assert(gobs[way[0] as int].parent == Some(way[1]));
        chain_tail(gobs, way);
        above_on_the_chain(gobs, way.skip(1), (n - 1) as nat);
        assert(way.skip(1)[n - 1] == way[n as int]);
    }
}

proof fn above_the_chain<F>(gobs: Seq<Gob<F>>, way: Seq<Id>, n: nat)
    requires
        chained(gobs, way),
        n >= way.len(),
        way.last() >= gobs.len() || gobs[way.last() as int].name@.len() == 0
            || gobs[way.last() as int].parent is None,
    ensures
        above(gobs, way[0], n) is None,
    decreases n,
{
    if way.len() == 1 {
        assert(way.last() == way[0]);
    } else {
        assert(gobs[way[0] as int].parent == Some(way[1]));
        chain_tail(gobs, way);
        above_the_chain(gobs, way.skip(1), (n - 1) as nat);
    }
}

/// An object hangs off whatever a chain of named objects, each hanging off the
/// next, leads up to from it; and off nothing else.
pub proof fn a_chain_hangs_together<F>(gobs: Seq<Gob<F>>, way: Seq<Id>, id: Id)
    requires
        chained(gobs, way),
    ensures
        hangs_off(gobs, way[0], way.last()),
        !way.contains(id) && (way.last() >= gobs.len() || gobs[way.last() as int].name@.len() == 0
            || gobs[way.last() as int].parent is None) ==> !hangs_off(gobs, way[0], id),
{
    above_on_the_chain(gobs, way, (way.len() - 1) as nat);
    if !way.contains(id) && (way.last() >= gobs.len() || gobs[way.last() as int].name@.len() == 0
        || gobs[way.last() as int].parent is None) && hangs_off(gobs, way[0], id) {
        let n = choose|n: nat| #[trigger] above(gobs, way[0], n) == Some(id);
        if n < way.len() {
            above_on_the_chain(gobs, way, n);
            assert(way[n as int] == id);
        } else {
            above_the_chain(gobs, way, n);
        }
    }
}

/// One more object is a child exactly if it hangs off the parent and has a
/// name; then it comes behind the others.
pub proof fn every_child_is_found<F>(gobs: Seq<Gob<F>>, p: Id, n: int)
    requires
        0 <= n < gobs.len(),
    ensures
        kids(gobs, p, 0) == Seq::<Id>::empty(),
        gobs[n].parent == Some(p) && gobs[n].name@.len() > 0 ==> kids(gobs, p, n + 1) == kids(
            gobs,
            p,
            n,
        ).push(n as Id),
        gobs[n].parent != Some(p) || gobs[n].name@.len() == 0 ==> kids(gobs, p, n + 1) == kids(
            gobs,
            p,
            n,
        ),
{
}

proof fn brooded<F>(gobs: Seq<Gob<F>>, list: Seq<Id>, k: int, i: int, c: Id)
    requires
        0 <= i < k <= list.len(),
        kids(gobs, list[i], gobs.len() as int).contains(c),
    ensures
        broods(gobs, list, k).contains(c),
    decreases k,
{
    let all = broods(gobs, list, k);
    let rest = broods(gobs, list, k - 1);
    if i == k - 1 {
        let brood = kids(gobs, list[i], gobs.len() as int);
        let at = choose|at: int| 0 <= at < brood.len() && brood[at] == c;
        assert(all[rest.len() + at] == c);
    } else {
        brooded(gobs, list, k - 1, i, c);
        let at = choose|at: int| 0 <= at < rest.len() && rest[at] == c;
        assert(all[at] == c);
    }
}

/// The list of what hangs off an object begins with it, and holds with every
/// object all its named children.
pub proof fn a_subtree_holds_every_child<F>(
    gobs: Seq<Gob<F>>,
    id: Id,
    list: Seq<Id>,
    i: int,
    c: int,
)
    requires
        gobs.len() <= 0x1_0000_0000,
        is_subtree(gobs, id, list),
    ensures
        list.len() > 0 && list[0] == id,
        0 <= i < list.len() && 0 <= c < gobs.len() && gobs[c].parent == Some(list[i])
            && gobs[c].name@.len() > 0 ==> list.contains(c as Id),
{
    let broodlings = broods(gobs, list, list.len() as int);
    let whole = seq![id] + broodlings;
    assert(whole.len() == 1 + broodlings.len());
    assert(list == whole);
    assert(whole[0] == id);
    if 0 <= i < list.len() && 0 <= c < gobs.len() && gobs[c].parent == Some(list[i])
        && gobs[c].name@.len() > 0 {
        kids_are_kids(gobs, list[i], gobs.len() as int);
        brooded(gobs, list, list.len() as int, i, c as Id);
        let at = choose|at: int| 0 <= at < broodlings.len() && broodlings[at] == c as Id;
        assert(whole[1 + at] == c as Id);
    }
}

/// One more object is told by name exactly if it has one.
pub proof fn every_name_is_told<F>(gobs: Seq<Gob<F>>, list: Seq<Id>, k: int)
    requires
        0 <= k < list.len(),
        list[k] < gobs.len(),
    ensures
        names_of(gobs, list, 0) == Seq::<Seq<char>>::empty(),
        gobs[list[k] as int].name@.len() > 0 ==> names_of(gobs, list, k + 1) == names_of(
            gobs,
            list,
            k,
        ).push(gobs[list[k] as int].name@),
        gobs[list[k] as int].name@.len() == 0 ==> names_of(gobs, list, k + 1) == names_of(
            gobs,
            list,
            k,
        ),
{
}

/// Of a blank object nothing has been said: it has no name and no type, hangs
/// off nothing, wears nothing, and has no hitpoints; all its numbers are nought.
pub proof fn nothing_is_said_of_a_blank<F>(g: Gob<F>, zero: F)
    requires
        g.is_blank(zero),
    ensures
        g.name@ == Seq::<char>::empty() && g.kind == 0 && g.parent is None && g.resource is None,
        g.hitpoints == 0 && g.max_hitpoints == 0 && g.damage_filter == 0,
        !g.created && !g.gui && g.bbox_min is None && g.bbox_max is None,
        g.group == zero && g.flag == zero,
        g.position@ == seq![zero, zero, zero],
        g.rotation@ == seq![zero, zero, zero, zero],
        g.payload@ == seq![zero, zero, zero, zero],
        g.otherwise_blank(zero),
{
    assert(g.name@ =~= Seq::<char>::empty());
}

/// Where only one object is another, every other object is what it was, and so
/// are the names and what has been set; where nothing is, everything is.
pub proof fn the_rest_of_the_world_stays<F>(
    now: &World<F>,
    was: &World<F>,
    id: Id,
    gob: Gob<F>,
    j: int,
)
    requires
        id < was.gobs().len(),
    ensures
        now.only_at(was, id, gob) ==> {
            &&& now.gobs().len() == was.gobs().len()
            &&& now.gobs()[id as int] == gob
            &&& 0 <= j < was.gobs().len() && j != id ==> now.gobs()[j] == was.gobs()[j]
            &&& now.names() == was.names()
            &&& now.chosen() == was.chosen() && now.nil() == was.nil()
        },
        now.unchanged(was) ==> now.gobs() == was.gobs() && now.names() == was.names()
            && now.moves() == was.moves() && now.chosen() == was.chosen() && now.nil() == was.nil(),
{
}

/// In a world in order a name leads to an object that bears it, and to the last
/// that does.
pub proof fn a_name_leads_to_the_last_of_it<F>(w: &World<F>, name: Seq<char>, i: int)
    requires
        w.wf(),
        w.names().contains_key(name),
    ensures
        w.names()[name] < w.gobs().len(),
        w.gobs()[w.names()[name] as int].name@ == name,
        name.len() > 0 && w.names()[name] < i < w.gobs().len() ==> w.gobs()[i].name@ != name,
{
    if name.len() > 0 && w.names()[name] < i < w.gobs().len() {
        let g = w.gobs()[i];
        assert(w.names().contains_key(name));
    }
}

/// An object hangs off itself exactly if a chain of named objects leads up from
/// it and comes back.
pub proof fn a_ring_comes_back<F>(gobs: Seq<Gob<F>>, way: Seq<Id>)
    requires
        chained(gobs, way),
    ensures
        way.len() > 1 && way.last() == way[0] ==> looped(gobs, way[0]),
        way.no_duplicates() && (way.last() >= gobs.len() || gobs[way.last() as int].name@.len() == 0
            || gobs[way.last() as int].parent is None) ==> !looped(gobs, way[0]),
{
    if way.len() > 1 && way.last() == way[0] {
        above_on_the_chain(gobs, way, (way.len() - 1) as nat);
    }
    if way.no_duplicates() && (way.last() >= gobs.len() || gobs[way.last() as int].name@.len() == 0
        || gobs[way.last() as int].parent is None) && looped(gobs, way[0]) {
        let n = choose|n: nat| n > 0 && #[trigger] above(gobs, way[0], n) == Some(way[0]);
        if n < way.len() {
            above_on_the_chain(gobs, way, n);
            assert(way[n as int] == way[0]);
        } else {
            above_the_chain(gobs, way, n);
        }
    }
}

} // verus!
