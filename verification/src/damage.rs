//! Who is hit, and what that does.
use crate::boot::key_name;
use crate::measure;
use crate::names;
use crate::tables;
use crate::text;
use crate::world;
use crate::world::{Gob, Hit, Id, World};
use vstd::prelude::*;

verus! {

pub const DAMAGE_GOODGUY: i64 = 1;

pub const DAMAGE_FALLING: i64 = 16;

/// Do two masks of damage share a kind?
pub fn is_damage_type(a: i64, b: i64) -> (r: bool)
    ensures
        r == (a & b != 0),
{
    a & b != 0
}

/// What dealing damage comes to.
#[derive(Clone, Copy, Debug, PartialEq, Eq, Structural)]
pub enum Dealt {
    /// Nothing: it is harmless, or there is nobody.
    Nothing,
    /// The victim's own handler is to have it, and nothing else happens.
    Scripted,
    /// The victim has taken it, or not.
    Taken(Hit),
}

/// The part of an amount that an object can be dealt at once.
pub open spec fn dose(amount: i64) -> i16 {
    if amount > i16::MAX {
        i16::MAX
    } else {
        amount as i16
    }
}

/// What the world does to a victim: damage of a kind that its filter does not
/// hold is ignored.
pub open spec fn taken<F>(g: Gob<F>, amount: i64, kind: i64) -> Hit {
    if (g.damage_filter as i64) & kind == 0 {
        Hit::Ignored
    } else {
        world::hit_of(g.damage_filter, g.hitpoints, dose(amount))
    }
}

/// What dealing damage comes to. A harmless amount does nothing, and nobody is
/// asked; a handler of the victim's own takes the place of all the rest,
/// whatever the victim is vulnerable to.
pub open spec fn dealt<F>(
    w: &World<F>,
    name: Seq<char>,
    amount: i64,
    kind: i64,
    handler: bool,
) -> Dealt {
    if amount <= 0 {
        Dealt::Nothing
    } else if handler {
        Dealt::Scripted
    } else if !w.names().contains_key(name) {
        Dealt::Nothing
    } else {
        Dealt::Taken(taken(w.gobs()[w.names()[name] as int], amount, kind))
    }
}

/// Deal damage to whoever a name leads to. `handler` says that the victim has a
/// handler of its own, which is to be asked.
pub fn deal_damage<F>(w: &mut World<F>, name: &str, amount: i64, kind: i64, handler: bool) -> (r:
    Dealt)
    requires
        old(w).wf(),
    ensures
        r == dealt(old(w), name@, amount, kind, handler),
        final(w).wf(),
        final(w).moves() == old(w).moves(),
        match r {
            Dealt::Taken(hit) => if hit == Hit::Ignored {
                final(w).unchanged(old(w))
            } else {
                let id = old(w).names()[name@];
                let g = old(w).gobs()[id as int];
                final(w).only_at(
                    old(w),
                    id,
                    Gob { hitpoints: world::hurt_to(g.hitpoints, dose(amount)), ..g },
                )
            },
            _ => final(w).unchanged(old(w)),
        },
{
    if amount <= 0 {
        return Dealt::Nothing;
    }
    if handler {
        return Dealt::Scripted;
    }
    let id: Id = match w.find(name) {
        Some(id) => id,
        None => {
            return Dealt::Nothing;
        },
    };
    let deaf: bool = match w.get(id) {
        Some(g) => (g.damage_filter as i64) & kind == 0,
        None => true,
    };
    if deaf {
        return Dealt::Taken(Hit::Ignored);
    }
    let n: i16 = if amount > 32767 {
        32767
    } else {
        amount as i16
    };
    Dealt::Taken(w.take_damage(id, n))
}

/// A scripted handler replaces the world's own reaction: whoever has one loses
/// nothing by being dealt damage, and a harmless amount reaches nobody.
pub proof fn a_handler_takes_the_damage<F>(
    w: &World<F>,
    name: Seq<char>,
    amount: i64,
    kind: i64,
    handler: bool,
)
    ensures
        handler && amount > 0 ==> dealt(w, name, amount, kind, handler) == Dealt::Scripted,
        amount <= 0 ==> dealt(w, name, amount, kind, handler) == Dealt::Nothing,
{
}

/// What a corpse does: whether it is a walker, which falls over where it stood.
pub fn falls_over(kind: i64) -> (r: bool)
    ensures
        r == (tables::base_of(kind) is Some),
{
    tables::base_hitpoints(kind).is_some()
}

pub const ANIM_DIE: i64 = 17;

// ---------------------------------------------------------------------------
// Who is near
// ---------------------------------------------------------------------------
/// How far a shout carries, squared: a hundred units.
pub const EARSHOT: i64 = 0x40c3_8800_0000_0000;

/// Does the object hear a shout of `who`? `far` is the square of how far off it
/// is.
pub open spec fn hears<F>(g: Gob<F>, who: Seq<char>, far: i64) -> bool {
    g.name@ != who && g.named() && far < EARSHOT
}

pub open spec fn hearers_of<F>(gobs: Seq<Gob<F>>, who: Seq<char>, far: Seq<i64>, n: int) -> Seq<
    Seq<char>,
>
    decreases n,
{
    if n <= 0 {
        seq![]
    } else {
        let rest = hearers_of(gobs, who, far, n - 1);
        if hears(gobs[n - 1], who, far[n - 1]) {
            rest.push(gobs[n - 1].name@)
        } else {
            rest
        }
    }
}

/// The names of all that hear a shout of `who`, in the order of the arena.
/// `far` is for each object the square of how far off it is.
pub fn hearers<F>(w: &World<F>, who: &String, far: &Vec<i64>) -> (out: Vec<String>)
    requires
        w.wf(),
        far@.len() == w.gobs().len(),
    ensures
        names::texts(out@) == hearers_of(w.gobs(), who@, far@, far@.len() as int),
{
    let n: usize = w.len();
    let mut out: Vec<String> = Vec::new();
    let mut i: usize = 0;
    assert(names::texts(out@) =~= hearers_of(w.gobs(), who@, far@, 0));
    while i < n
        invariant
            n == w.gobs().len(),
            n <= 0x1_0000_0000,
            far@.len() == n,
            i <= n,
            names::texts(out@) == hearers_of(w.gobs(), who@, far@, i as int),
        decreases n - i,
    {
        if let Some(g) = w.get(i as Id) {
            if !(g.name == *who) && !g.name.as_str().is_empty() && far[i] < EARSHOT {
                let ghost before = out@;
                out.push(g.name.clone());
                assert(names::texts(out@) =~= names::texts(before).push(g.name@));
            }
        }
        i += 1;
    }
    out
}

/// Can the object be hit by somebody of this name: is it alive, and has it a
/// name, and another one?
pub open spec fn mark<F>(g: Gob<F>, who: Seq<char>) -> bool {
    g.hitpoints > 0 && g.named() && g.name@ != who
}

/// What a blast does to an object: the damage less the distance, where the
/// object is inside the radius and that leaves anything. `near` is how far off
/// it is, to be compared and in whole units.
pub open spec fn blast_on<F>(
    g: Gob<F>,
    who: Seq<char>,
    near: (i64, i64),
    radius: i64,
    damage: i64,
) -> Option<i64> {
    if mark(g, who) && near.0 < radius && damage > near.1 {
        Some((damage - near.1) as i64)
    } else {
        None
    }
}

pub open spec fn blast_of<F>(
    gobs: Seq<Gob<F>>,
    who: Seq<char>,
    near: Seq<(i64, i64)>,
    radius: i64,
    damage: i64,
    n: int,
) -> Seq<(Seq<char>, i64)>
    decreases n,
{
    if n <= 0 {
        seq![]
    } else {
        let rest = blast_of(gobs, who, near, radius, damage, n - 1);
        match blast_on(gobs[n - 1], who, near[n - 1], radius, damage) {
            Some(hurt) => rest.push((gobs[n - 1].name@, hurt)),
            None => rest,
        }
    }
}

/// Who is caught in a blast of `who`'s, and what each is dealt, in the order of
/// the arena.
pub fn blast<F>(
    w: &World<F>,
    who: &String,
    near: &Vec<(i64, i64)>,
    radius: i64,
    damage: i64,
) -> (out: Vec<(String, i64)>)
    requires
        w.wf(),
        near@.len() == w.gobs().len(),
        forall|i: int| 0 <= i < near@.len() ==> (#[trigger] near@[i]).1 >= 0,
    ensures
        out@.map_values(|e: (String, i64)| (e.0@, e.1)) == blast_of(
            w.gobs(),
            who@,
            near@,
            radius,
            damage,
            near@.len() as int,
        ),
{
    let n: usize = w.len();
    let mut out: Vec<(String, i64)> = Vec::new();
    let mut i: usize = 0;
    assert(out@.map_values(|e: (String, i64)| (e.0@, e.1)) =~= blast_of(
        w.gobs(),
        who@,
        near@,
        radius,
        damage,
        0,
    ));
    while i < n
        invariant
            n == w.gobs().len(),
            n <= 0x1_0000_0000,
            near@.len() == n,
            forall|i: int| 0 <= i < near@.len() ==> (#[trigger] near@[i]).1 >= 0,
            i <= n,
            out@.map_values(|e: (String, i64)| (e.0@, e.1)) == blast_of(
                w.gobs(),
                who@,
                near@,
                radius,
                damage,
                i as int,
            ),
        decreases n - i,
    {
        if let Some(g) = w.get(i as Id) {
            let (dist, whole) = near[i];
            if g.hitpoints > 0 && !g.name.as_str().is_empty() && !(g.name == *who) && dist < radius
                && damage > whole {
                let ghost before = out@;
                out.push((g.name.clone(), damage - whole));
                assert(out@.map_values(|e: (String, i64)| (e.0@, e.1)) =~= before.map_values(
                    |e: (String, i64)| (e.0@, e.1),
                ).push((g.name@, (damage - whole) as i64)));
            }
        }
        i += 1;
    }
    out
}

/// Nobody is caught in their own blast, and nobody outside its radius; and who
/// is further off is dealt less.
pub proof fn a_blast_falls_off<F>(
    g: Gob<F>,
    who: Seq<char>,
    near: (i64, i64),
    far: (i64, i64),
    radius: i64,
    damage: i64,
)
    requires
        0 <= near.1 <= far.1,
        near.0 <= far.0,
    ensures
        g.name@ == who ==> blast_on(g, who, near, radius, damage) is None,
        near.0 >= radius ==> blast_on(g, who, near, radius, damage) is None,
        blast_on(g, who, far, radius, damage) matches Some(less) ==> (blast_on(
            g,
            who,
            near,
            radius,
            damage,
        ) matches Some(more) && less <= more <= damage),
{
}

/// Is the object under the gun: can it be hit, is it no more than a hundred
/// units off and not here, is it in the cone, and is nothing in between?
pub open spec fn under_the_gun<F>(g: Gob<F>, who: Seq<char>, at: (i64, bool, bool)) -> bool {
    mark(g, who) && 0 < at.0 <= measure::HUNDRED && at.1 && at.2
}

/// Is `i` the object that the gun hits: the first of the nearest of those under
/// it?
pub open spec fn is_victim<F>(
    gobs: Seq<Gob<F>>,
    who: Seq<char>,
    at: Seq<(i64, bool, bool)>,
    i: int,
) -> bool {
    &&& 0 <= i < gobs.len()
    &&& under_the_gun(gobs[i], who, at[i])
    &&& forall|j: int|
        0 <= j < gobs.len() && under_the_gun(#[trigger] gobs[j], who, at[j]) ==> at[i].0 <= at[j].0
            && (at[j].0 == at[i].0 ==> i <= j)
}

/// Who the gun of `who` hits. `at` holds for each object how far off it is in
/// the plane, whether it is in the cone, and whether it is in sight.
pub fn hitscan<F>(w: &World<F>, who: &String, at: &Vec<(i64, bool, bool)>) -> (r: Option<Id>)
    requires
        w.wf(),
        at@.len() == w.gobs().len(),
    ensures
        match r {
            Some(id) => is_victim(w.gobs(), who@, at@, id as int),
            None => forall|i: int|
                0 <= i < w.gobs().len() ==> !under_the_gun(#[trigger] w.gobs()[i], who@, at@[i]),
        },
        r matches Some(id) ==> {
            let g = w.gobs()[id as int];
            &&& id < w.gobs().len()
            &&& g.hitpoints > 0 && g.name@.len() > 0 && g.name@ != who@
            &&& 0 < at@[id as int].0 <= measure::HUNDRED
            &&& at@[id as int].1 && at@[id as int].2
        },
        forall|i: int|
            0 <= i < w.gobs().len() && (#[trigger] w.gobs()[i]).hitpoints > 0
                && w.gobs()[i].name@.len() > 0 && w.gobs()[i].name@ != who@ && 0 < at@[i].0
                <= measure::HUNDRED && at@[i].1 && at@[i].2 ==> (r matches Some(id) && at@[id as int].0
                <= at@[i].0 && (at@[id as int].0 == at@[i].0 ==> id <= i)),
{
    let n: usize = w.len();
    let mut best: Option<Id> = None;
    let mut i: usize = 0;
    while i < n
        invariant
            n == w.gobs().len(),
            n <= 0x1_0000_0000,
            at@.len() == n,
            i <= n,
            match best {
                Some(b) => {
                    &&& b < i
                    &&& under_the_gun(w.gobs()[b as int], who@, at@[b as int])
                    &&& forall|j: int|
                        0 <= j < i && under_the_gun(#[trigger] w.gobs()[j], who@, at@[j])
                            ==> at@[b as int].0 <= at@[j].0 && (at@[j].0 == at@[b as int].0 ==> b
                            <= j)
                },
                None => forall|j: int|
                    0 <= j < i ==> !under_the_gun(#[trigger] w.gobs()[j], who@, at@[j]),
            },
        decreases n - i,
    {
        if let Some(g) = w.get(i as Id) {
            let (flat, cone, sees) = at[i];
            if g.hitpoints > 0 && !g.name.as_str().is_empty() && !(g.name == *who) && 0 < flat
                && flat <= measure::HUNDRED && cone && sees {
                let closer: bool = match best {
                    Some(b) => flat < at[b as usize].0,
                    None => true,
                };
                if closer {
                    best = Some(i as Id);
                }
            }
        }
        i += 1;
    }
    best
}

/// What the gun deals: five in the first mode of firing, two in any other.
pub fn gun_damage(mode: i64) -> (n: i64)
    ensures
        n == (if mode == 1 {
            5i64
        } else {
            2
        }),
{
    if mode == 1 {
        5
    } else {
        2
    }
}

/// Can a shot hit the object: is it alive, has it a name that is not the
/// shooter's, is it not the shot itself, is it hurt by the shot's kind of
/// damage, and is it within two units of the shot?
pub open spec fn hittable<F>(
    g: Gob<F>,
    i: int,
    shot: Id,
    shooter: Option<String>,
    filter: i16,
    near: bool,
) -> bool {
    &&& i != shot
    &&& g.hitpoints > 0
    &&& g.named()
    &&& shooter matches Some(s) ==> g.name@ != s@
    &&& g.damage_filter & filter != 0
    &&& near
}

/// What a shot hits: the first object of the arena that it can. `far` is for
/// each object the square of how far off it is; a hit is within two units.
pub fn shot_hits<F>(
    w: &World<F>,
    shot: Id,
    shooter: &Option<String>,
    filter: i16,
    far: &Vec<i64>,
) -> (r: Option<Id>)
    requires
        w.wf(),
        far@.len() == w.gobs().len(),
    ensures
        match r {
            Some(id) => {
                &&& id < w.gobs().len()
                &&& hittable(
                    w.gobs()[id as int],
                    id as int,
                    shot,
                    *shooter,
                    filter,
                    far@[id as int] < FOUR,
                )
                &&& forall|j: int|
                    0 <= j < id ==> !hittable(
                        #[trigger] w.gobs()[j],
                        j,
                        shot,
                        *shooter,
                        filter,
                        far@[j] < FOUR,
                    )
            },
            None => forall|j: int|
                0 <= j < w.gobs().len() ==> !hittable(
                    #[trigger] w.gobs()[j],
                    j,
                    shot,
                    *shooter,
                    filter,
                    far@[j] < FOUR,
                ),
        },
        r matches Some(id) ==> {
            let g = w.gobs()[id as int];
            &&& id < w.gobs().len() && id != shot
            &&& g.hitpoints > 0 && g.name@.len() > 0
            &&& shooter matches Some(s) ==> g.name@ != s@
            &&& g.damage_filter & filter != 0
            &&& far@[id as int] < FOUR
        },
        forall|i: int|
            0 <= i < w.gobs().len() && i != shot && (#[trigger] w.gobs()[i]).hitpoints > 0
                && w.gobs()[i].name@.len() > 0 && (*shooter is None || w.gobs()[i].name@
                != shooter->Some_0@) && w.gobs()[i].damage_filter & filter != 0 && far@[i] < FOUR
                ==> (r matches Some(id) && id <= i),
{
    let n: usize = w.len();
    let mut i: usize = 0;
    while i < n
        invariant
            n == w.gobs().len(),
            n <= 0x1_0000_0000,
            far@.len() == n,
            i <= n,
            forall|j: int|
                0 <= j < i ==> !hittable(
                    #[trigger] w.gobs()[j],
                    j,
                    shot,
                    *shooter,
                    filter,
                    far@[j] < FOUR,
                ),
        decreases n - i,
    {
        if let Some(g) = w.get(i as Id) {
            let own: bool = match shooter {
                Some(s) => g.name == *s,
                None => false,
            };
            if i as Id != shot && g.hitpoints > 0 && !g.name.as_str().is_empty() && !own
                && g.damage_filter & filter != 0 && far[i] < FOUR {
                return Some(i as Id);
            }
        }
        i += 1;
    }
    None
}

/// The square of how near a shot has to pass.
pub const FOUR: i64 = 0x4010_0000_0000_0000;

/// A shot as it is launched: the object, and what the table says of it.
pub struct Fired<F> {
    pub gob: Gob<F>,
    pub speed: i32,
    /// How long it flies, where that has an end.
    pub life: Option<i32>,
    pub damage: i16,
    pub filter: i16,
    pub shooter: String,
    /// It leaves at the player, and not along the shooter's nose.
    pub at_player: bool,
}

/// What is launched by whoever fires a shot of this type from there. What is no
/// shot is not launched at all.
pub fn fired<F: Copy>(who: &str, kind: i64, at: [F; 3], zero: F) -> (r: Option<Fired<F>>)
    ensures
        r is Some == tables::bullet_of(kind) is Some,
        r matches Some(f) ==> {
            let (_, filter, damage, life, speed, flags) = tables::bullet_of(kind)->Some_0;
            &&& f.gob.name@ == who@ + "_key"@ + text::integral(kind as int)
            &&& f.gob.kind == kind
            &&& f.gob.position == at
            &&& f.gob.rotation@ == seq![zero, zero, zero, zero]
            &&& f.gob.resource is None
            &&& f.gob.payload@ == seq![zero, zero, zero, zero]
            &&& f.gob.otherwise_blank(zero)
            &&& f.speed == speed
            &&& f.life == (if life < 0 {
                None
            } else {
                Some(life)
            })
            &&& f.damage == damage && f.filter == filter
            &&& f.shooter@ == who@
            &&& f.at_player == (flags & tables::AT_PLAYER != 0)
        },
{
    match tables::bullet(kind) {
        None => None,
        Some((_, filter, damage, life, speed, flags)) => {
            let mut gob: Gob<F> = Gob::blank(zero);
            gob.name = key_name(who, kind);
            gob.kind = kind;
            gob.position = at;
            let ends: Option<i32> = if life < 0 {
                None
            } else {
                Some(life)
            };
            Some(
                Fired {
                    gob,
                    speed,
                    life: ends,
                    damage,
                    filter,
                    shooter: who.to_owned(),
                    at_player: flags & tables::AT_PLAYER != 0,
                },
            )
        },
    }
}

/// How a shot ends.
#[derive(Clone, Copy, Debug, PartialEq, Eq, Structural)]
pub struct Ending {
    /// It flies on.
    pub flies: bool,
    /// The shooter is told that it landed where it was aimed.
    pub landed: bool,
}

/// How a shot ends: on what it hits, or when its time is up. `life` is the time
/// it has left.
pub fn shot_ends(hit: &Option<String>, aimed: &Option<String>, life: i64) -> (r: Ending)
    ensures
        r.flies == (hit is None && life > 0),
        r.landed == (hit matches Some(h) && (aimed matches Some(a) && h@ == a@)),
{
    match hit {
        None => Ending { flies: life > 0, landed: false },
        Some(h) => {
            let landed: bool = match aimed {
                Some(a) => *h == *a,
                None => false,
            };
            Ending { flies: false, landed }
        },
    }
}

/// A shot does not stop on one that it cannot hurt, nor on whoever fired it.
pub proof fn a_shot_passes_its_own_side<F>(
    g: Gob<F>,
    i: int,
    shot: Id,
    shooter: String,
    filter: i16,
    near: bool,
)
    ensures
        g.damage_filter & filter == 0 ==> !hittable(g, i, shot, Some(shooter), filter, near),
        g.name@ == shooter@ ==> !hittable(g, i, shot, Some(shooter), filter, near),
        g.hitpoints <= 0 ==> !hittable(g, i, shot, Some(shooter), filter, near),
{
}


// ---------------------------------------------------------------------------
// Who is hit, and what that does
// ---------------------------------------------------------------------------
/// The gun hits whoever is alive, has a name that is not the shooter's, is in
/// the cone and in sight, and is off by more than nothing and no more than a
/// hundred units; and of two such it is the nearer that is hit.
pub proof fn the_gun_hits_what_it_can<F>(
    gobs: Seq<Gob<F>>,
    who: Seq<char>,
    at: Seq<(i64, bool, bool)>,
    i: int,
    v: int,
)
    requires
        0 <= i < gobs.len(),
        gobs[i].hitpoints > 0,
        gobs[i].name@.len() > 0,
        gobs[i].name@ != who,
        0 < at[i].0 <= measure::HUNDRED,
        at[i].1,
        at[i].2,
    ensures
        under_the_gun(gobs[i], who, at[i]),
        measure::HUNDRED == measure::of_whole(100),
        is_victim(gobs, who, at, v) ==> at[v].0 <= at[i].0 && (at[v].0 == at[i].0 ==> v <= i),
{
    measure::the_named_measures();
}

/// The gun hits nobody that is dead, nameless, the shooter, out of the cone,
/// out of sight, here, or more than a hundred units off.
pub proof fn the_gun_hits_nobody_else<F>(g: Gob<F>, who: Seq<char>, at: (i64, bool, bool))
    requires
        g.hitpoints <= 0 || g.name@.len() == 0 || g.name@ == who || !at.1 || !at.2 || at.0 <= 0
            || at.0 > measure::HUNDRED,
    ensures
        !under_the_gun(g, who, at),
{
}

/// One more object hears a shout exactly if it has a name, and another than
/// whoever shouts, and is less than a hundred units off; then its name comes
/// behind the others.
pub proof fn a_shout_carries<F>(gobs: Seq<Gob<F>>, who: Seq<char>, far: Seq<i64>, n: int)
    requires
        0 <= n < gobs.len(),
    ensures
        EARSHOT == measure::of_whole(10000),
        hearers_of(gobs, who, far, 0) == Seq::<Seq<char>>::empty(),
        gobs[n].name@ != who && gobs[n].name@.len() > 0 && far[n] < EARSHOT ==> hearers_of(
            gobs,
            who,
            far,
            n + 1,
        ) == hearers_of(gobs, who, far, n).push(gobs[n].name@),
        gobs[n].name@ == who || gobs[n].name@.len() == 0 || far[n] >= EARSHOT ==> hearers_of(
            gobs,
            who,
            far,
            n + 1,
        ) == hearers_of(gobs, who, far, n),
{
}

/// One more object is caught in a blast exactly if it is alive, has a name that
/// is not that of whoever made it, is inside the radius, and is off by less
/// than the damage; then it is dealt the damage less how far off it is.
pub proof fn a_blast_catches<F>(
    gobs: Seq<Gob<F>>,
    who: Seq<char>,
    near: Seq<(i64, i64)>,
    radius: i64,
    damage: i64,
    n: int,
)
    requires
        0 <= n < gobs.len(),
        near[n].1 >= 0,
    ensures
        blast_of(gobs, who, near, radius, damage, 0) == Seq::<(Seq<char>, i64)>::empty(),
        gobs[n].hitpoints > 0 && gobs[n].name@.len() > 0 && gobs[n].name@ != who && near[n].0
            < radius && near[n].1 < damage ==> blast_of(gobs, who, near, radius, damage, n + 1)
            == blast_of(gobs, who, near, radius, damage, n).push(
            (gobs[n].name@, (damage - near[n].1) as i64),
        ),
        gobs[n].hitpoints <= 0 || gobs[n].name@.len() == 0 || gobs[n].name@ == who || near[n].0
            >= radius || near[n].1 >= damage ==> blast_of(gobs, who, near, radius, damage, n + 1)
            == blast_of(gobs, who, near, radius, damage, n),
{
}

/// Damage of a kind that the victim's filter holds takes off as much as is
/// dealt, up to the most that can be taken at once: it kills whoever has no
/// more than that, and hurts whoever has. Damage of another kind, or to a
/// corpse, is ignored, and a name that leads to nobody is dealt nothing.
pub proof fn damage_is_dealt_in_full<F>(w: &World<F>, name: Seq<char>, amount: i64, kind: i64)
    requires
        amount > 0,
    ensures
        !w.names().contains_key(name) ==> dealt(w, name, amount, kind, false) == Dealt::Nothing,
        w.names().contains_key(name) ==> {
            let g = w.gobs()[w.names()[name] as int];
            let r = dealt(w, name, amount, kind, false);
            &&& (g.damage_filter as i64) & kind == 0 ==> r == Dealt::Taken(Hit::Ignored)
            &&& g.hitpoints <= 0 || g.damage_filter == 0 ==> r == Dealt::Taken(Hit::Ignored)
            &&& (g.damage_filter as i64) & kind != 0 && g.damage_filter != 0 && 0 < g.hitpoints
                <= amount ==> r == Dealt::Taken(Hit::Died)
            &&& (g.damage_filter as i64) & kind != 0 && g.damage_filter != 0 && g.hitpoints > amount
                ==> r == Dealt::Taken(Hit::Hurt) && world::hurt_to(g.hitpoints, dose(amount))
                == g.hitpoints - amount
        },
        amount <= i16::MAX ==> dose(amount) == amount,
        amount > i16::MAX ==> dose(amount) == i16::MAX,
{
}

/// How near a shot has to pass is two units, squared.
pub proof fn a_shot_hits_within_two_units()
    ensures
        FOUR == measure::of_whole(4),
{
}

} // verus!
