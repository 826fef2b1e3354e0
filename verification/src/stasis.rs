//! What is frozen, what is awake, and what has been created.
//!
//! A level holds its encounters back by freezing them. Being frozen is
//! inherited: whatever hangs off something frozen is frozen too.
use crate::names;
use crate::names::Names;
use crate::order;
use crate::world::{Gob, Id, World};
use vstd::prelude::*;

verus! {

/// How many objects up the freezing is looked for. Objects that hang off each
/// other in a ring would otherwise be followed for ever.
pub const GENERATIONS: u32 = 64;

/// What an object hangs off, `n` steps up.
pub open spec fn up<F>(gobs: Seq<Gob<F>>, id: Id, n: nat) -> Option<Id>
    decreases n,
{
    if id >= gobs.len() {
        None
    } else if n == 0 {
        Some(id)
    } else {
        match gobs[id as int].parent {
            Some(p) => up(gobs, p, (n - 1) as nat),
            None => None,
        }
    }
}

/// Has the object `n` steps up been frozen itself?
pub open spec fn frozen_up<F>(
    gobs: Seq<Gob<F>>,
    stasis: Map<Seq<char>, ()>,
    id: Id,
    n: nat,
) -> bool {
    match up(gobs, id, n) {
        Some(a) => gobs[a as int].named() && stasis.contains_key(gobs[a as int].name@),
        None => false,
    }
}

/// Is an object frozen, itself or by something it hangs off, within so many
/// generations?
pub open spec fn frozen_within<F>(
    gobs: Seq<Gob<F>>,
    stasis: Map<Seq<char>, ()>,
    id: Id,
    n: nat,
) -> bool {
    exists|k: nat| k < n && #[trigger] frozen_up(gobs, stasis, id, k)
}

/// Is an object frozen, itself or by something it hangs off?
pub open spec fn is_frozen<F>(gobs: Seq<Gob<F>>, stasis: Map<Seq<char>, ()>, id: Id) -> bool {
    frozen_within(gobs, stasis, id, GENERATIONS as nat)
}

proof fn one_up<F>(gobs: Seq<Gob<F>>, stasis: Map<Seq<char>, ()>, id: Id, n: nat)
    requires
        id < gobs.len(),
        n > 0,
    ensures
        frozen_within(gobs, stasis, id, n) <==> (frozen_up(gobs, stasis, id, 0) || (
        gobs[id as int].parent matches Some(p) && frozen_within(gobs, stasis, p, (n - 1) as nat))),
{
    if frozen_within(gobs, stasis, id, n) && !frozen_up(gobs, stasis, id, 0) {
        let k = choose|k: nat| k < n && #[trigger] frozen_up(gobs, stasis, id, k);
        assert(k > 0);
        let p = gobs[id as int].parent->Some_0;
        assert(frozen_up(gobs, stasis, p, (k - 1) as nat));
    }
    if let Some(p) = gobs[id as int].parent {
        if frozen_within(gobs, stasis, p, (n - 1) as nat) {
            let k = choose|k: nat| k < n - 1 && #[trigger] frozen_up(gobs, stasis, p, k);
            assert(up(gobs, id, k + 1) == up(gobs, p, k));
            assert(frozen_up(gobs, stasis, id, k + 1));
        }
    }
}

/// Stasis is inherited: what hangs off a frozen object, so many steps up, is
/// frozen, as long as that many steps are looked at.
pub proof fn stasis_is_inherited<F>(
    gobs: Seq<Gob<F>>,
    stasis: Map<Seq<char>, ()>,
    id: Id,
    n: nat,
    a: Id,
)
    requires
        n < GENERATIONS,
        up(gobs, id, n) == Some(a),
        gobs[a as int].named(),
        stasis.contains_key(gobs[a as int].name@),
    ensures
        is_frozen(gobs, stasis, id),
{
    assert(frozen_up(gobs, stasis, id, n));
}

/// Is this object frozen — itself, or by something it hangs off?
pub fn frozen<F>(w: &World<F>, stasis: &Names<()>, id: Id) -> (r: bool)
    ensures
        r == is_frozen(w.gobs(), stasis@, id),
{
    let mut at: Option<Id> = Some(id);
    let mut left: u32 = GENERATIONS;
    while left > 0
        invariant
            left <= GENERATIONS,
            is_frozen(w.gobs(), stasis@, id) <==> (at matches Some(i) && frozen_within(
                w.gobs(),
                stasis@,
                i,
                left as nat,
            )),
        decreases left,
    {
        let i: Id = match at {
            Some(i) => i,
            None => {
                return false;
            },
        };
        match w.get(i) {
            None => {
                assert forall|k: nat| !#[trigger] frozen_up(w.gobs(), stasis@, i, k) by {}
                return false;
            },
            Some(g) => {
                proof {
                    one_up(w.gobs(), stasis@, i, left as nat);
                }
                if !g.name.as_str().is_empty() && stasis.has(g.name.as_str()) {
                    return true;
                }
                at = g.parent;
            },
        }
        left -= 1;
    }
    false
}

/// Does the object at `id` bear this name and is it awake?
pub open spec fn awake_as<F>(
    gobs: Seq<Gob<F>>,
    stasis: Map<Seq<char>, ()>,
    name: Seq<char>,
    id: int,
) -> bool {
    0 <= id < gobs.len() && gobs[id].name@ == name && !is_frozen(gobs, stasis, id as Id)
}

/// The names of everything awake, in order and each once.
pub fn awake<F>(w: &World<F>, stasis: &Names<()>) -> (out: Vec<String>)
    requires
        w.wf(),
    ensures
        order::in_order(out@),
        forall|i: int, j: int|
            0 <= i < j < out@.len() ==> names::earlier((#[trigger] out@[i])@, (#[trigger] out@[j])@),
        forall|k: Seq<char>| #[trigger]
            names::lists(out@, k) <==> exists|id: int| #[trigger]
                awake_as(w.gobs(), stasis@, k, id),
{
    let mut found: Names<()> = Names::new();
    let n: usize = w.len();
    let mut at: usize = 0;
    while at < n
        invariant
            n == w.gobs().len(),
            n <= 0x1_0000_0000,
            at <= n,
            forall|k: Seq<char>|
                #![trigger found@.contains_key(k)]
                found@.contains_key(k) <==> exists|id: int|
                    id < at && #[trigger] awake_as(w.gobs(), stasis@, k, id),
        decreases n - at,
    {
        let id: Id = at as Id;
        let ghost before = found@;
        if let Some(g) = w.get(id) {
            let iced: bool = frozen(w, stasis, id);
            if !iced {
                found.insert(g.name.clone(), ());
            }
            proof {
                let here = w.gobs()[at as int].name@;
                assert forall|k: Seq<char>| #![trigger found@.contains_key(k)]
                    found@.contains_key(k) <==> exists|id: int|
                        id < at + 1 && #[trigger] awake_as(w.gobs(), stasis@, k, id) by {
                    if found@.contains_key(k) {
                        if before.contains_key(k) {
                            let i = choose|i: int|
                                i < at && #[trigger] awake_as(w.gobs(), stasis@, k, i);
                            assert(awake_as(w.gobs(), stasis@, k, i));
                        } else {
                            assert(awake_as(w.gobs(), stasis@, k, at as int));
                        }
                    }
                    if exists|id: int| id < at + 1 && #[trigger] awake_as(w.gobs(), stasis@, k, id) {
                        let i = choose|i: int|
                            i < at + 1 && #[trigger] awake_as(w.gobs(), stasis@, k, i);
                        if i < at {
                            assert(before.contains_key(k));
                        }
                    }
                }
            }
        }
        at += 1;
    }
    let out = found.all();
    proof {
        assert forall|k: Seq<char>| #[trigger]
            names::lists(out@, k) <==> exists|id: int| #[trigger]
                awake_as(w.gobs(), stasis@, k, id) by {
            assert(found@.contains_key(k) <==> names::lists(out@, k));
            if exists|id: int| #[trigger] awake_as(w.gobs(), stasis@, k, id) {
                let i = choose|i: int| #[trigger] awake_as(w.gobs(), stasis@, k, i);
                assert(found@.contains_key(k));
            }
        }
    }
    out
}

/// Does a name run: does it lead to nothing, or to something that is awake?
pub open spec fn runs<F>(w: &World<F>, stasis: Map<Seq<char>, ()>, name: Seq<char>) -> bool {
    w.names().contains_key(name) ==> !is_frozen(w.gobs(), stasis, w.names()[name])
}

/// Those of the names that run, as they are listed.
pub open spec fn running_of<F>(
    w: &World<F>,
    stasis: Map<Seq<char>, ()>,
    list: Seq<Seq<char>>,
    n: int,
) -> Seq<Seq<char>>
    decreases n,
{
    if n <= 0 {
        seq![]
    } else {
        let rest = running_of(w, stasis, list, n - 1);
        if runs(w, stasis, list[n - 1]) {
            rest.push(list[n - 1])
        } else {
            rest
        }
    }
}

/// Those of the names that run, in their order: a frozen object is left out,
/// and a name that leads to nothing is not.
pub fn running<F, V>(w: &World<F>, stasis: &Names<()>, of: &Names<V>) -> (out: Vec<String>)
    ensures
        names::texts(out@) == running_of(
            w,
            stasis@,
            names::names_in(of.entries()),
            of.entries().len() as int,
        ),
{
    let mut out: Vec<String> = Vec::new();
    let n: usize = of.len();
    let mut i: usize = 0;
    while i < n
        invariant
            n == of.entries().len(),
            i <= n,
            names::texts(out@) == running_of(
                w,
                stasis@,
                names::names_in(of.entries()),
                i as int,
            ),
        decreases n - i,
    {
        let (name, _) = of.at(i);
        let run: bool = match w.find(name) {
            None => true,
            Some(id) => !frozen(w, stasis, id),
        };
        let ghost before = out@;
        if run {
            out.push(name.to_owned());
            assert(names::texts(out@) =~= names::texts(before).push(name@));
        }
        i += 1;
    }
    out
}

// ---------------------------------------------------------------------------
// Creation
// ---------------------------------------------------------------------------
/// The names of those of the first `n` objects that have not been created yet,
/// in the order of the arena.
pub open spec fn fresh_of<F>(gobs: Seq<Gob<F>>, n: int) -> Seq<Seq<char>>
    decreases n,
{
    if n <= 0 {
        seq![]
    } else {
        let rest = fresh_of(gobs, n - 1);
        if !gobs[n - 1].created {
            rest.push(gobs[n - 1].name@)
        } else {
            rest
        }
    }
}

/// The names of what has not been created yet.
pub fn fresh<F>(w: &World<F>) -> (out: Vec<String>)
    requires
        w.wf(),
    ensures
        names::texts(out@) == fresh_of(w.gobs(), w.gobs().len() as int),
{
    let mut out: Vec<String> = Vec::new();
    let n: usize = w.len();
    let mut i: usize = 0;
    while i < n
        invariant
            n == w.gobs().len(),
            n <= 0x1_0000_0000,
            i <= n,
            names::texts(out@) == fresh_of(w.gobs(), i as int),
        decreases n - i,
    {
        if let Some(g) = w.get(i as Id) {
            if !g.created {
                let ghost before = out@;
                out.push(g.name.clone());
                assert(names::texts(out@) =~= names::texts(before).push(g.name@));
            }
        }
        i += 1;
    }
    out
}

/// Is this the name of an object that starts frozen: one that has a name, has
/// not been created, and whose flag is one?
pub open spec fn starts_frozen<F>(
    gobs: Seq<Gob<F>>,
    flagged: Seq<bool>,
    name: Seq<char>,
    id: int,
) -> bool {
    &&& 0 <= id < gobs.len()
    &&& flagged[id]
    &&& gobs[id].named()
    &&& !gobs[id].created
    &&& gobs[id].name@ == name
}

/// Freeze what starts frozen. `flagged` says of each object whether its flag is
/// one.
pub fn freeze_flagged<F>(w: &World<F>, flagged: &Vec<bool>, stasis: &mut Names<()>)
    requires
        w.wf(),
        flagged@.len() == w.gobs().len(),
    ensures
        forall|k: Seq<char>|
            #![trigger final(stasis)@.contains_key(k)]
            final(stasis)@.contains_key(k) <==> old(stasis)@.contains_key(k) || exists|id: int|
                #[trigger] starts_frozen(w.gobs(), flagged@, k, id),
{
    let n: usize = w.len();
    let mut at: usize = 0;
    while at < n
        invariant
            n == w.gobs().len(),
            n <= 0x1_0000_0000,
            flagged@.len() == n,
            at <= n,
            forall|k: Seq<char>|
                #![trigger stasis@.contains_key(k)]
                stasis@.contains_key(k) <==> old(stasis)@.contains_key(k) || exists|id: int|
                    id < at && #[trigger] starts_frozen(w.gobs(), flagged@, k, id),
        decreases n - at,
    {
        let ghost before = stasis@;
        if let Some(g) = w.get(at as Id) {
            if flagged[at] && !g.name.as_str().is_empty() && !g.created {
                stasis.insert(g.name.clone(), ());
            }
        }
        proof {
            assert forall|k: Seq<char>| #![trigger stasis@.contains_key(k)]
                stasis@.contains_key(k) <==> old(stasis)@.contains_key(k) || exists|id: int|
                    id < at + 1 && #[trigger] starts_frozen(w.gobs(), flagged@, k, id) by {
                if stasis@.contains_key(k) && !before.contains_key(k) {
                    assert(starts_frozen(w.gobs(), flagged@, k, at as int));
                }
                if before.contains_key(k) && !old(stasis)@.contains_key(k) {
                    let i = choose|i: int|
                        i < at && #[trigger] starts_frozen(w.gobs(), flagged@, k, i);
                    assert(starts_frozen(w.gobs(), flagged@, k, i));
                }
                if exists|id: int|
                    id < at + 1 && #[trigger] starts_frozen(w.gobs(), flagged@, k, id) {
                    let i = choose|i: int|
                        i < at + 1 && #[trigger] starts_frozen(w.gobs(), flagged@, k, i);
                    if i < at {
                        assert(before.contains_key(k));
                    }
                }
            }
        }
        at += 1;
    }
    assert forall|k: Seq<char>| #![trigger stasis@.contains_key(k)]
        stasis@.contains_key(k) <==> old(stasis)@.contains_key(k) || exists|id: int|
            #[trigger] starts_frozen(w.gobs(), flagged@, k, id) by {
        if exists|id: int| #[trigger] starts_frozen(w.gobs(), flagged@, k, id) {
            let i = choose|i: int| #[trigger] starts_frozen(w.gobs(), flagged@, k, i);
            assert(i < at);
        }
    }
}

/// Create the object that a name leads to, unless it has been created: whether
/// its handler is to be called. Nothing is created twice.
pub fn create_once<F>(w: &mut World<F>, name: &str) -> (r: bool)
    requires
        old(w).wf(),
    ensures
        r == (old(w).names().contains_key(name@) && !old(w).gobs()[old(
            w,
        ).names()[name@] as int].created),
        final(w).wf(),
        final(w).moves() == old(w).moves(),
        !r ==> final(w).unchanged(old(w)),
        r ==> final(w).only_at(
            old(w),
            old(w).names()[name@],
            (Gob { created: true, ..old(w).gobs()[old(w).names()[name@] as int] }),
        ),
{
    let id: Id = match w.find(name) {
        Some(id) => id,
        None => {
            return false;
        },
    };
    let made: bool = match w.get(id) {
        Some(g) => g.created,
        None => true,
    };
    if made {
        return false;
    }
    if let Some(g) = w.get_mut(id) {
        g.created = true;
    }
    true
}

// ---------------------------------------------------------------------------
// Up and down
// ---------------------------------------------------------------------------
/// Do the objects of a list hang off one another, each off the next?
pub open spec fn chained<F>(gobs: Seq<Gob<F>>, way: Seq<Id>) -> bool {
    &&& way.len() > 0
    &&& forall|k: int| 0 <= k < way.len() ==> (#[trigger] way[k]) < gobs.len()
    &&& forall|k: int|
        0 <= k < way.len() - 1 ==> gobs[(#[trigger] way[k]) as int].parent == Some(way[k + 1])
}

proof fn up_the_chain<F>(gobs: Seq<Gob<F>>, way: Seq<Id>, n: nat)
    requires
        chained(gobs, way),
        n < way.len(),
    ensures
        up(gobs, way[0], n) == Some(way[n as int]),
    decreases n,
{
    assert(way[0] < gobs.len());
    if n > 0 {
        assert(gobs[way[0] as int].parent == Some(way[1]));
        let rest = way.skip(1);
        assert(chained(gobs, rest)) by {
            assert forall|k: int| 0 <= k < rest.len() implies (#[trigger] rest[k]) < gobs.len() by {
                assert(rest[k] == way[k + 1]);
            }
            assert forall|k: int| 0 <= k < rest.len() - 1 implies gobs[(
            #[trigger] rest[k]) as int].parent == Some(rest[k + 1]) by {
                assert(rest[k] == way[k + 1] && rest[k + 1] == way[k + 2]);
            }
        }
        up_the_chain(gobs, rest, (n - 1) as nat);
        assert(rest[0] == way[1]);
        assert(rest[n - 1] == way[n as int]);
    }
}

proof fn past_the_chain<F>(gobs: Seq<Gob<F>>, way: Seq<Id>, n: nat)
    requires
        chained(gobs, way),
        gobs[way.last() as int].parent is None,
        n >= way.len(),
    ensures
        up(gobs, way[0], n) is None,
    decreases n,
{
    assert(way[0] < gobs.len());
    if way.len() == 1 {
        assert(way.last() == way[0]);
    } else {
        assert(gobs[way[0] as int].parent == Some(way[1]));
        let rest = way.skip(1);
        assert(chained(gobs, rest)) by {
            assert forall|k: int| 0 <= k < rest.len() implies (#[trigger] rest[k]) < gobs.len() by {
                assert(rest[k] == way[k + 1]);
            }
            assert forall|k: int| 0 <= k < rest.len() - 1 implies gobs[(
            #[trigger] rest[k]) as int].parent == Some(rest[k + 1]) by {
                assert(rest[k] == way[k + 1] && rest[k + 1] == way[k + 2]);
            }
        }
        assert(rest.last() == way.last());
        assert(rest[0] == way[1]);
        past_the_chain(gobs, rest, (n - 1) as nat);
    }
}

/// An object is frozen if something is that it hangs off, over up to
/// sixty-three others: something with a name that has been frozen. Itself
/// counts too.
pub proof fn whatever_hangs_off_the_frozen_is_frozen<F>(
    gobs: Seq<Gob<F>>,
    stasis: Map<Seq<char>, ()>,
    way: Seq<Id>,
)
    requires
        chained(gobs, way),
        way.len() <= 64,
        gobs[way.last() as int].name@.len() > 0,
        stasis.contains_key(gobs[way.last() as int].name@),
    ensures
        is_frozen(gobs, stasis, way[0]),
{
    let n: nat = (way.len() - 1) as nat;
    up_the_chain(gobs, way, n);
    assert(way.last() < gobs.len()) by {
        assert(way[way.len() - 1] < gobs.len());
    }
    assert(frozen_up(gobs, stasis, way[0], n));
}

/// An object is awake if nothing is frozen of what it hangs off, up to
/// something that hangs off nothing, and neither is itself.
pub proof fn whatever_hangs_off_the_awake_is_awake<F>(
    gobs: Seq<Gob<F>>,
    stasis: Map<Seq<char>, ()>,
    way: Seq<Id>,
)
    requires
        chained(gobs, way),
        gobs[way.last() as int].parent is None,
        forall|k: int|
            0 <= k < way.len() ==> gobs[(#[trigger] way[k]) as int].name@.len() == 0
                || !stasis.contains_key(gobs[way[k] as int].name@),
    ensures
        !is_frozen(gobs, stasis, way[0]),
{
    if is_frozen(gobs, stasis, way[0]) {
        let k = choose|k: nat| k < GENERATIONS && #[trigger] frozen_up(gobs, stasis, way[0], k);
        if k < way.len() {
            up_the_chain(gobs, way, k);
            assert(gobs[way[k as int] as int].name@.len() == 0 || !stasis.contains_key(
                gobs[way[k as int] as int].name@,
            ));
        } else {
            past_the_chain(gobs, way, k);
        }
    }
}

/// One more name runs exactly if it leads to nothing, or to something that is
/// awake; then it comes behind the others.
pub proof fn every_name_that_is_awake_runs<F>(
    w: &World<F>,
    stasis: Map<Seq<char>, ()>,
    list: Seq<Seq<char>>,
    n: int,
)
    requires
        0 <= n < list.len(),
    ensures
        running_of(w, stasis, list, 0) == Seq::<Seq<char>>::empty(),
        !w.names().contains_key(list[n]) || !is_frozen(w.gobs(), stasis, w.names()[list[n]])
            ==> running_of(w, stasis, list, n + 1) == running_of(w, stasis, list, n).push(list[n]),
        w.names().contains_key(list[n]) && is_frozen(w.gobs(), stasis, w.names()[list[n]])
            ==> running_of(w, stasis, list, n + 1) == running_of(w, stasis, list, n),
{
}

/// One more object is fresh exactly if it has not been created; then its name
/// comes behind the others.
pub proof fn every_object_is_fresh_until_created<F>(gobs: Seq<Gob<F>>, n: int)
    requires
        0 <= n < gobs.len(),
    ensures
        fresh_of(gobs, 0) == Seq::<Seq<char>>::empty(),
        !gobs[n].created ==> fresh_of(gobs, n + 1) == fresh_of(gobs, n).push(gobs[n].name@),
        gobs[n].created ==> fresh_of(gobs, n + 1) == fresh_of(gobs, n),
{
}

/// A name starts frozen exactly if an object bears it whose flag is one, and
/// which has not been created; and it has to be a name.
pub proof fn a_flag_freezes_what_is_not_created<F>(gobs: Seq<Gob<F>>, flagged: Seq<bool>, id: int)
    requires
        0 <= id < gobs.len(),
    ensures
        flagged[id] && !gobs[id].created && gobs[id].name@.len() > 0 ==> starts_frozen(
            gobs,
            flagged,
            gobs[id].name@,
            id,
        ),
        !flagged[id] || gobs[id].created || gobs[id].name@.len() == 0 ==> forall|name: Seq<char>|
            !#[trigger] starts_frozen(gobs, flagged, name, id),
        forall|name: Seq<char>|
            name != gobs[id].name@ ==> !#[trigger] starts_frozen(gobs, flagged, name, id),
{
}

/// A name is awake exactly if an object bears it that is not frozen.
pub proof fn a_name_is_awake_by_its_object<F>(
    gobs: Seq<Gob<F>>,
    stasis: Map<Seq<char>, ()>,
    name: Seq<char>,
    id: Id,
)
    ensures
        awake_as(gobs, stasis, name, id as int) <==> id < gobs.len() && gobs[id as int].name@ == name
            && !is_frozen(gobs, stasis, id),
{
}

/// The freezing is looked for in an object and in sixty-three above it, and not
/// further up.
pub proof fn freezing_does_not_reach_further<F>(
    gobs: Seq<Gob<F>>,
    stasis: Map<Seq<char>, ()>,
    way: Seq<Id>,
)
    requires
        chained(gobs, way),
        way.len() >= 64,
        forall|k: int|
            0 <= k < 64 ==> gobs[(#[trigger] way[k]) as int].name@.len() == 0
                || !stasis.contains_key(gobs[way[k] as int].name@),
    ensures
        !is_frozen(gobs, stasis, way[0]),
{
    if is_frozen(gobs, stasis, way[0]) {
        let k = choose|k: nat| k < GENERATIONS && #[trigger] frozen_up(gobs, stasis, way[0], k);
        up_the_chain(gobs, way, k);
        assert(gobs[way[k as int] as int].name@.len() == 0 || !stasis.contains_key(
            gobs[way[k as int] as int].name@,
        ));
    }
}

} // verus!
