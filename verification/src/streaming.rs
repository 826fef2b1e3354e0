//! Taking rooms out of the world as a level is walked through.
use crate::names;
use crate::rooms;
use crate::rooms::{rooms_around, Checkpoints, Rooms};
use crate::world;
use crate::world::{Gob, Id, World};
use vstd::prelude::*;

verus! {

/// Does an object go with one of the first `k` of these rooms: does it hang off
/// what one of the names leads to?
pub open spec fn struck<F>(
    gobs: Seq<Gob<F>>,
    led: Map<Seq<char>, Id>,
    rooms: Seq<Seq<char>>,
    k: int,
    id: Id,
) -> bool {
    exists|i: int| 0 <= i < k && #[trigger] strikes(gobs, led, rooms[i], id)
}

/// Does an object go with this room?
pub open spec fn strikes<F>(
    gobs: Seq<Gob<F>>,
    led: Map<Seq<char>, Id>,
    room: Seq<char>,
    id: Id,
) -> bool {
    led.contains_key(room) && world::hangs_off(gobs, id, led[room])
}

/// Is nothing in a ring, hanging off itself?
pub open spec fn ringless<F>(gobs: Seq<Gob<F>>) -> bool {
    forall|id: Id| !#[trigger] world::looped(gobs, id)
}

/// Does everything hang off something that was there before it?
pub open spec fn parents_first<F>(gobs: Seq<Gob<F>>) -> bool {
    forall|i: int|
        0 <= i < gobs.len() ==> ((#[trigger] gobs[i]).parent matches Some(p) ==> p < i)
}

/// Does everything hang off something that was there before it?
pub fn are_parents_first<F>(w: &World<F>) -> (r: bool)
    requires
        w.wf(),
    ensures
        r == parents_first(w.gobs()),
{
    let n: usize = w.len();
    let mut i: usize = 0;
    while i < n
        invariant
            n == w.gobs().len(),
            n <= 0x1_0000_0000,
            i <= n,
            forall|j: int|
                0 <= j < i ==> ((#[trigger] w.gobs()[j]).parent matches Some(p) ==> p < j),
        decreases n - i,
    {
        if let Some(g) = w.get(i as Id) {
            if let Some(p) = g.parent {
                if p as usize >= i {
                    assert(w.gobs()[i as int].parent == Some(p));
                    return false;
                }
            }
        }
        i += 1;
    }
    true
}

/// Where everything hangs off something that was there before it, nothing is in
/// a ring.
pub proof fn parents_first_is_ringless<F>(gobs: Seq<Gob<F>>)
    requires
        parents_first(gobs),
    ensures
        ringless(gobs),
{
    assert forall|id: Id| !#[trigger] world::looped(gobs, id) by {
        if world::looped(gobs, id) {
            let n = choose|n: nat| n > 0 && #[trigger] world::above(gobs, id, n) == Some(id);
            upwards_is_earlier(gobs, id, n);
        }
    }
}

proof fn upwards_is_earlier<F>(gobs: Seq<Gob<F>>, c: Id, n: nat)
    requires
        parents_first(gobs),
        n > 0,
        world::above(gobs, c, n) is Some,
    ensures
        world::above(gobs, c, n)->Some_0 < c,
    decreases n,
{
    assert(gobs[c as int].named());
    let p = gobs[c as int].parent->Some_0;
    assert(p < c);
    if n > 1 {
        upwards_is_earlier(gobs, p, (n - 1) as nat);
    }
}

/// A way up that goes so far goes less far too.
proof fn less_far<F>(gobs: Seq<Gob<F>>, c: Id, k: nat, m: nat)
    requires
        k <= m,
        world::above(gobs, c, m) is Some,
    ensures
        world::above(gobs, c, k) is Some,
        world::above(gobs, world::above(gobs, c, k)->Some_0, (m - k) as nat) == world::above(
            gobs,
            c,
            m,
        ),
    decreases k,
{
    if k > 0 {
        less_far(gobs, gobs[c as int].parent->Some_0, (k - 1) as nat, (m - 1) as nat);
    }
}

/// Whatever hangs off itself has a way up of any length.
proof fn round_and_round<F>(gobs: Seq<Gob<F>>, id: Id, n: nat, m: nat)
    requires
        n > 0,
        world::above(gobs, id, n) == Some(id),
    ensures
        world::above(gobs, id, m) is Some,
    decreases m,
{
    if m <= n {
        less_far(gobs, id, m, n);
    } else {
        round_and_round(gobs, id, n, (m - n) as nat);
        above_adds(gobs, id, n, id, (m - n) as nat);
    }
}

/// A way up with more steps than there are objects comes round.
proof fn comes_round<F>(gobs: Seq<Gob<F>>, c: Id)
    requires
        world::above(gobs, c, gobs.len() + 1) is Some,
    ensures
        !ringless(gobs),
{
    let n = gobs.len();
    let way = Seq::new(n + 1, |k: int| world::above(gobs, c, k as nat)->Some_0 as int);
    assert forall|k: int| 0 <= k <= n implies 0 <= #[trigger] way[k] < n by {
        less_far(gobs, c, k as nat, n + 1);
    }
    if way.no_duplicates() {
        way.unique_seq_to_set();
        let all = vstd::set_lib::set_int_range(0, n as int);
        vstd::set_lib::lemma_int_range(0, n as int);
        assert(way.to_set().subset_of(all));
        vstd::set_lib::lemma_len_subset(way.to_set(), all);
    }
    let (i, j) = choose|i: int, j: int|
        0 <= i < way.len() && 0 <= j < way.len() && i != j && way[i] == way[j];
    let (a, b) = if i < j {
        (i, j)
    } else {
        (j, i)
    };
    less_far(gobs, c, b as nat, n + 1);
    less_far(gobs, c, a as nat, b as nat);
    let id = world::above(gobs, c, a as nat)->Some_0;
    assert(way[a] == way[b]);
    assert(world::above(gobs, id, (b - a) as nat) == Some(id));
    assert(world::looped(gobs, id));
}

/// Is nothing in a ring?
pub fn is_ringless<F>(w: &World<F>) -> (r: bool)
    requires
        w.wf(),
    ensures
        r == ringless(w.gobs()),
{
    let n: usize = w.len();
    let steps: u64 = n as u64 + 1;
    let mut i: usize = 0;
    while i < n
        invariant
            n == w.gobs().len(),
            n <= 0x1_0000_0000,
            steps == n + 1,
            i <= n,
            forall|c: int|
                0 <= c < i ==> (#[trigger] world::above(w.gobs(), c as Id, steps as nat)) is None,
        decreases n - i,
    {
        let mut at: Id = i as Id;
        let mut k: u64 = 0;
        let mut over: bool = false;
        while k < steps && !over
            invariant
                steps == w.gobs().len() + 1,
                k <= steps,
                i < n == w.gobs().len() <= 0x1_0000_0000,
                over ==> world::above(w.gobs(), i as Id, steps as nat) is None,
                !over ==> world::above(w.gobs(), i as Id, steps as nat) == world::above(
                    w.gobs(),
                    at,
                    (steps - k) as nat,
                ),
            decreases steps - k, !over as int,
        {
            let up: Option<Id> = match w.get(at) {
                Some(g) => if g.name.as_str().is_empty() {
                    None
                } else {
                    g.parent
                },
                None => None,
            };
            match up {
                Some(p) => {
                    at = p;
                    k += 1;
                },
                None => {
                    over = true;
                },
            }
        }
        if !over {
            proof {
                comes_round(w.gobs(), i as Id);
            }
            return false;
        }
        i += 1;
    }
    proof {
        assert forall|id: Id| !#[trigger] world::looped(w.gobs(), id) by {
            if world::looped(w.gobs(), id) {
                let m = choose|m: nat|
                    m > 0 && #[trigger] world::above(w.gobs(), id, m) == Some(id);
                round_and_round(w.gobs(), id, m, steps as nat);
                assert(id < n);
                assert(world::above(w.gobs(), (id as int) as Id, steps as nat) is None);
            }
        }
    }
    true
}

/// Are the objects those of `was`, with what goes with the first `k` rooms
/// emptied?
pub open spec fn cleared<F>(
    now: &World<F>,
    was: &World<F>,
    rooms: Seq<Seq<char>>,
    k: int,
) -> bool {
    &&& now.gobs().len() == was.gobs().len()
    &&& forall|j: int|
        0 <= j < was.gobs().len() ==> if struck(was.gobs(), was.names(), rooms, k, j as Id)
            && was.gobs()[j].named() {
            (#[trigger] now.gobs()[j]).is_blank(was.nil())
        } else {
            now.gobs()[j] == was.gobs()[j]
        }
    &&& forall|n: Seq<char>| #[trigger]
        now.names().contains_key(n) <==> was.names().contains_key(n) && !(n.len() > 0 && struck(
            was.gobs(),
            was.names(),
            rooms,
            k,
            was.names()[n],
        ))
    &&& forall|n: Seq<char>| #[trigger]
        now.names().contains_key(n) ==> now.names()[n] == was.names()[n]
    &&& now.chosen() == was.chosen()
    &&& now.nil() == was.nil()
}

/// Does this list hold the names of exactly what goes with the room at `k` and
/// with none before it?
pub open spec fn is_toll<F>(
    was: &World<F>,
    rooms: Seq<Seq<char>>,
    k: int,
    list: Seq<Seq<char>>,
) -> bool {
    forall|n: Seq<char>| #[trigger]
        list.contains(n) <==> exists|j: int| #[trigger] falls(was, rooms, k, j, n)
}

/// Is `n` the name of the object `j`, which goes with the room at `k` and with
/// none before it?
pub open spec fn falls<F>(
    was: &World<F>,
    rooms: Seq<Seq<char>>,
    k: int,
    j: int,
    n: Seq<char>,
) -> bool {
    &&& 0 <= j < was.gobs().len()
    &&& was.gobs()[j].named()
    &&& was.gobs()[j].name@ == n
    &&& strikes(was.gobs(), was.names(), rooms[k], j as Id)
    &&& !struck(was.gobs(), was.names(), rooms, k, j as Id)
}

proof fn above_adds<F>(gobs: Seq<Gob<F>>, c: Id, n: nat, b: Id, m: nat)
    requires
        world::above(gobs, c, n) == Some(b),
    ensures
        world::above(gobs, c, n + m) == world::above(gobs, b, m),
    decreases n,
{
    if n > 0 {
        let p = gobs[c as int].parent->Some_0;
        above_adds(gobs, p, (n - 1) as nat, b, m);
    }
}

/// What hangs off something that goes, goes.
proof fn hanging_goes<F>(
    gobs: Seq<Gob<F>>,
    led: Map<Seq<char>, Id>,
    rooms: Seq<Seq<char>>,
    k: int,
    c: Id,
    b: Id,
)
    requires
        world::hangs_off(gobs, c, b),
        struck(gobs, led, rooms, k, b),
    ensures
        struck(gobs, led, rooms, k, c),
{
    let i = choose|i: int| 0 <= i < k && #[trigger] strikes(gobs, led, rooms[i], b);
    let n = choose|n: nat| #[trigger] world::above(gobs, c, n) == Some(b);
    let m = choose|m: nat| #[trigger] world::above(gobs, b, m) == Some(led[rooms[i]]);
    above_adds(gobs, c, n, b, m);
    assert(world::above(gobs, c, n + m) == Some(led[rooms[i]]));
    assert(strikes(gobs, led, rooms[i], c));
}

/// A way up in what is left is a way up in what was.
proof fn way_was<F>(now: &World<F>, was: &World<F>, rooms: Seq<Seq<char>>, k: int, c: Id, n: nat)
    requires
        cleared(now, was, rooms, k),
        world::above(now.gobs(), c, n) is Some,
    ensures
        world::above(was.gobs(), c, n) == world::above(now.gobs(), c, n),
    decreases n,
{
    if n > 0 {
        assert(now.gobs()[c as int].named());
        assert(now.gobs()[c as int] == was.gobs()[c as int]);
        let p = now.gobs()[c as int].parent->Some_0;
        way_was(now, was, rooms, k, p, (n - 1) as nat);
    }
}

/// What does not go keeps its way up.
proof fn way_stays<F>(now: &World<F>, was: &World<F>, rooms: Seq<Seq<char>>, k: int, c: Id, n: nat)
    requires
        cleared(now, was, rooms, k),
        !struck(was.gobs(), was.names(), rooms, k, c),
        world::above(was.gobs(), c, n) is Some,
    ensures
        world::above(now.gobs(), c, n) == world::above(was.gobs(), c, n),
    decreases n,
{
    if n > 0 {
        assert(now.gobs()[c as int] == was.gobs()[c as int]);
        let p = was.gobs()[c as int].parent->Some_0;
        if struck(was.gobs(), was.names(), rooms, k, p) {
            assert(world::above(was.gobs(), p, 0) == Some(p));
            assert(world::above(was.gobs(), c, 1) == Some(p));
            hanging_goes(was.gobs(), was.names(), rooms, k, c, p);
        }
        way_stays(now, was, rooms, k, p, (n - 1) as nat);
    }
}

proof fn names_are_of_listed<F>(gobs: Seq<Gob<F>>, list: Seq<Id>, k: int, n: Seq<char>)
    requires
        0 <= k <= list.len(),
    ensures
        world::names_of(gobs, list, k).contains(n) <==> exists|i: int|
            0 <= i < k && #[trigger] bears(gobs, list[i], n),
    decreases k,
{
    if k > 0 {
        names_are_of_listed(gobs, list, k - 1, n);
        let rest = world::names_of(gobs, list, k - 1);
        let all = world::names_of(gobs, list, k);
        if bears(gobs, list[k - 1], n) {
            assert(all[all.len() - 1] == n);
        }
        if rest.contains(n) {
            let i = choose|i: int| 0 <= i < rest.len() && rest[i] == n;
            assert(all[i] == n);
        }
        if all.contains(n) && !bears(gobs, list[k - 1], n) {
            let i = choose|i: int| 0 <= i < all.len() && all[i] == n;
            assert(i < rest.len());
            assert(rest[i] == n);
        }
    } else {
        assert(!world::names_of(gobs, list, k).contains(n));
    }
}

pub open spec fn bears<F>(gobs: Seq<Gob<F>>, id: Id, n: Seq<char>) -> bool {
    id < gobs.len() && gobs[id as int].named() && gobs[id as int].name@ == n
}

/// Is `gone` a list of what hangs off a room, the names in the order in which a
/// walk down from it comes by them, and each object once? Where the name leads
/// to nothing, is the list empty?
pub open spec fn lists_subtree<F>(was: &World<F>, room: Seq<char>, gone: Seq<Seq<char>>) -> bool {
    exists|list: Seq<Id>|
        {
            &&& was.names().contains_key(room) ==> world::is_subtree(
                was.gobs(),
                was.names()[room],
                list,
            )
            &&& !was.names().contains_key(room) ==> list.len() == 0
            &&& list.no_duplicates()
            &&& gone == #[trigger] world::names_of(was.gobs(), list, list.len() as int)
        }
}

/// Does `now` follow `was` when a room is taken out, with this list of what went?
pub open spec fn took<F>(
    now: &World<F>,
    was: &World<F>,
    room: Seq<char>,
    gone: Seq<Seq<char>>,
) -> bool {
    cleared(now, was, seq![room], 1) && lists_subtree(was, room, gone)
}

/// Do the worlds follow one another as the rooms are taken out, one by one, with
/// these lists of what went?
pub open spec fn room_by_room<F>(
    worlds: Seq<World<F>>,
    rooms: Seq<Seq<char>>,
    parts: Seq<Seq<Seq<char>>>,
) -> bool {
    &&& parts.len() == rooms.len()
    &&& worlds.len() == rooms.len() + 1
    &&& forall|k: int|
        0 <= k < rooms.len() ==> took(&worlds[k + 1], &worlds[k], rooms[k], #[trigger] parts[k])
}

/// Does the name of the room at `k` still lead anywhere once the rooms before it
/// have gone?
pub open spec fn stands<F>(was: &World<F>, rooms: Seq<Seq<char>>, k: int) -> bool {
    was.names().contains_key(rooms[k]) && !(rooms[k].len() > 0 && struck(
        was.gobs(),
        was.names(),
        rooms,
        k,
        was.names()[rooms[k]],
    ))
}

/// How many of the first `k` rooms are there to be taken out when it is their
/// turn.
pub open spec fn felled<F>(was: &World<F>, rooms: Seq<Seq<char>>, k: int) -> int
    decreases k,
{
    if k <= 0 {
        0
    } else {
        felled(was, rooms, k - 1) + (if stands(was, rooms, k - 1) {
            1int
        } else {
            0
        })
    }
}

/// Take a room out of the world, with everything that hangs off it, and say the
/// names of what went. A name that leads to nothing takes nothing.
pub fn destroy_room<F: Copy>(w: &mut World<F>, room: &str) -> (gone: Vec<String>)
    requires
        old(w).wf(),
        ringless(old(w).gobs()),
        old(w).moves() < u64::MAX,
    ensures
        final(w).wf(),
        ringless(final(w).gobs()),
        cleared(final(w), old(w), seq![room@], 1),
        is_toll(old(w), seq![room@], 0, names::texts(gone@)),
        final(w).moves() == old(w).moves() + (if old(w).names().contains_key(room@) {
            1int
        } else {
            0
        }),
        lists_subtree(old(w), room@, names::texts(gone@)),
{
    let ghost rooms = seq![room@];
    match w.find(room) {
        None => {
            let gone: Vec<String> = Vec::new();
            proof {
                assert forall|id: Id| !struck(w.gobs(), w.names(), rooms, 1, id) by {}
                assert(names::texts(gone@) =~= Seq::<Seq<char>>::empty());
                let none = Seq::<Id>::empty();
                assert(names::texts(gone@) =~= world::names_of(w.gobs(), none, none.len() as int));
            }
            gone
        },
        Some(id) => {
            let ghost was = *w;
            let gone = w.destroy(id);
            proof {
                assert forall|j: Id| struck(was.gobs(), was.names(), rooms, 1, j)
                    <==> world::hangs_off(was.gobs(), j, id) by {
                    assert(rooms[0] == room@);
                    if world::hangs_off(was.gobs(), j, id) {
                        assert(strikes(was.gobs(), was.names(), rooms[0], j));
                    }
                }
                assert(cleared(w, &was, rooms, 1));
                stays_ringless(w, &was, rooms, 1);
                let list = choose|list: Seq<Id>|
                    {
                        &&& world::is_subtree(was.gobs(), id, list)
                        &&& list.no_duplicates()
                        &&& forall|c: Id| #[trigger]
                            list.contains(c) <==> world::hangs_off(was.gobs(), c, id)
                        &&& gone@.map_values(|s: String| s@) == #[trigger] world::names_of(
                            was.gobs(),
                            list,
                            list.len() as int,
                        )
                    };
                assert(names::texts(gone@) =~= world::names_of(
                    was.gobs(),
                    list,
                    list.len() as int,
                ));
                toll_of_one(&was, id, room@, list, names::texts(gone@));
            }
            gone
        },
    }
}

proof fn stays_ringless<F>(now: &World<F>, was: &World<F>, rooms: Seq<Seq<char>>, k: int)
    requires
        cleared(now, was, rooms, k),
        ringless(was.gobs()),
    ensures
        ringless(now.gobs()),
{
    assert forall|id: Id| !#[trigger] world::looped(now.gobs(), id) by {
        if world::looped(now.gobs(), id) {
            let n = choose|n: nat| n > 0 && #[trigger] world::above(now.gobs(), id, n) == Some(id);
            way_was(now, was, rooms, k, id, n);
            assert(world::looped(was.gobs(), id));
        }
    }
}

proof fn toll_of_one<F>(
    was: &World<F>,
    id: Id,
    room: Seq<char>,
    list: Seq<Id>,
    gone: Seq<Seq<char>>,
)
    requires
        was.wf(),
        was.names().contains_key(room),
        was.names()[room] == id,
        forall|c: Id| #[trigger] list.contains(c) <==> world::hangs_off(was.gobs(), c, id),
        gone == world::names_of(was.gobs(), list, list.len() as int),
    ensures
        is_toll(was, seq![room], 0, gone),
{
    let rooms = seq![room];
    assert forall|n: Seq<char>| #[trigger]
        gone.contains(n) <==> exists|j: int| #[trigger] falls(was, rooms, 0, j, n) by {
        names_are_of_listed(was.gobs(), list, list.len() as int, n);
        if gone.contains(n) {
            let i = choose|i: int|
                0 <= i < list.len() && #[trigger] bears(was.gobs(), list[i], n);
            assert(list.contains(list[i]));
            assert(falls(was, rooms, 0, list[i] as int, n));
        }
        if exists|j: int| #[trigger] falls(was, rooms, 0, j, n) {
            let j = choose|j: int| #[trigger] falls(was, rooms, 0, j, n);
            assert(list.contains(j as Id));
            let i = list.index_of(j as Id);
            assert(bears(was.gobs(), list[i], n));
        }
    }
}

/// The names of the rooms that go when a level is started at a checkpoint.
pub open spec fn doomed_names<F>(c: &Checkpoints<F>, checkpoint: i64) -> Seq<Seq<char>> {
    names::texts(rooms::doomed(c.list(), checkpoint, c.list().len() as int))
}

/// Take these rooms out of the world, one after the other, and say the names
/// of all that went, room by room.
pub fn destroy_rooms<F: Copy>(w: &mut World<F>, list: &Vec<String>) -> (gone: Vec<String>)
    requires
        old(w).wf(),
        ringless(old(w).gobs()),
        old(w).moves() + list@.len() <= u64::MAX,
    ensures
        final(w).wf(),
        ringless(final(w).gobs()),
        cleared(final(w), old(w), names::texts(list@), list@.len() as int),
        final(w).moves() == old(w).moves() + felled(
            old(w),
            names::texts(list@),
            list@.len() as int,
        ),
        exists|worlds: Seq<World<F>>, parts: Seq<Seq<Seq<char>>>|
            {
                &&& #[trigger] room_by_room(worlds, names::texts(list@), parts)
                &&& worlds[0] == *old(w) && worlds.last() == *final(w)
                &&& names::texts(gone@) == parts.flatten()
                &&& forall|k: int|
                    0 <= k < parts.len() ==> is_toll(
                        old(w),
                        names::texts(list@),
                        k,
                        #[trigger] parts[k],
                    )
            },
{
    let ghost was = *w;
    let ghost rooms = names::texts(list@);
    let ghost mut parts: Seq<Seq<Seq<char>>> = Seq::empty();
    let ghost mut worlds: Seq<World<F>> = seq![*w];
    let mut gone: Vec<String> = Vec::new();
    let n: usize = list.len();
    let mut k: usize = 0;
    proof {
        assert forall|id: Id| !struck(was.gobs(), was.names(), rooms, 0, id) by {}
        assert(names::texts(gone@) =~= parts.flatten());
    }
    while k < n
        invariant
            n == list@.len(),
            k <= n,
            rooms == names::texts(list@),
            was == *old(w),
            was.wf(),
            w.wf(),
            ringless(was.gobs()),
            ringless(w.gobs()),
            w.moves() == was.moves() + felled(&was, rooms, k as int),
            w.moves() <= was.moves() + k,
            was.moves() + n <= u64::MAX,
            cleared(w, &was, rooms, k as int),
            worlds[0] == was,
            worlds.last() == *w,
            room_by_room(worlds, rooms.take(k as int), parts),
            names::texts(gone@) == parts.flatten(),
            forall|i: int| 0 <= i < k ==> is_toll(&was, rooms, i, #[trigger] parts[i]),
        decreases n - k,
    {
        let ghost mid = *w;
        let went = destroy_room(w, list[k].as_str());
        proof {
            assert(rooms[k as int] == list@[k as int]@);
            assert(mid.names().contains_key(rooms[k as int]) == stands(&was, rooms, k as int));
            one_more(w, &mid, &was, rooms, k as int, names::texts(went@));
        }
        let ghost part = names::texts(went@);
        let ghost before = names::texts(gone@);
        let mut went = went;
        gone.append(&mut went);
        proof {
            assert(names::texts(gone@) =~= before + part);
            parts.lemma_flatten_push(part);
            let (now, next) = (rooms.take(k as int), rooms.take(k + 1));
            let (longer, more) = (worlds.push(*w), parts.push(part));
            assert(took(w, &mid, rooms[k as int], part));
            assert forall|j: int| 0 <= j < next.len() implies took(
                &longer[j + 1],
                &longer[j],
                next[j],
                #[trigger] more[j],
            ) by {
                if j < k {
                    assert(took(&worlds[j + 1], &worlds[j], now[j], parts[j]));
                }
            }
            parts = more;
            worlds = longer;
        }
        k += 1;
    }
    assert(rooms.take(n as int) == rooms);
    gone
}

/// Taking out one room more.
proof fn one_more<F>(
    now: &World<F>,
    mid: &World<F>,
    was: &World<F>,
    rooms: Seq<Seq<char>>,
    k: int,
    went: Seq<Seq<char>>,
)
    requires
        0 <= k < rooms.len(),
        was.wf(),
        mid.wf(),
        cleared(mid, was, rooms, k),
        cleared(now, mid, seq![rooms[k]], 1),
        is_toll(mid, seq![rooms[k]], 0, went),
    ensures
        cleared(now, was, rooms, k + 1),
        is_toll(was, rooms, k, went),
{
    let room = rooms[k];
    let one = seq![room];
    assert(one[0] == room);
    // who the last room strikes in the middle, and who it strikes at first
    assert forall|j: Id|
        #![trigger struck(mid.gobs(), mid.names(), one, 1, j)]
        !struck(was.gobs(), was.names(), rooms, k, j) implies (struck(
        mid.gobs(),
        mid.names(),
        one,
        1,
        j,
    ) <==> strikes(was.gobs(), was.names(), room, j)) by {
        if struck(mid.gobs(), mid.names(), one, 1, j) {
            assert(strikes(mid.gobs(), mid.names(), one[0], j));
            let id = mid.names()[room];
            let m = choose|m: nat| #[trigger] world::above(mid.gobs(), j, m) == Some(id);
            way_was(mid, was, rooms, k, j, m);
            assert(world::above(was.gobs(), j, m) == Some(id));
        }
        if strikes(was.gobs(), was.names(), room, j) {
            let id = was.names()[room];
            let m = choose|m: nat| #[trigger] world::above(was.gobs(), j, m) == Some(id);
            if !mid.names().contains_key(room) {
                hanging_goes(was.gobs(), was.names(), rooms, k, j, id);
            }
            way_stays(mid, was, rooms, k, j, m);
            assert(world::above(mid.gobs(), j, m) == Some(id));
            assert(strikes(mid.gobs(), mid.names(), one[0], j));
        }
    }
    let next = k + 1;
    assert forall|j: Id|
        #![trigger struck(was.gobs(), was.names(), rooms, next, j)]
        struck(was.gobs(), was.names(), rooms, next, j) <==> (struck(
        was.gobs(),
        was.names(),
        rooms,
        k,
        j,
    ) || strikes(was.gobs(), was.names(), room, j)) by {
        if struck(was.gobs(), was.names(), rooms, next, j) {
            let i = choose|i: int|
                0 <= i < next && #[trigger] strikes(was.gobs(), was.names(), rooms[i], j);
            if i < k {
                assert(strikes(was.gobs(), was.names(), rooms[i], j));
            }
        }
        if struck(was.gobs(), was.names(), rooms, k, j) {
            let i = choose|i: int|
                0 <= i < k && #[trigger] strikes(was.gobs(), was.names(), rooms[i], j);
            assert(strikes(was.gobs(), was.names(), rooms[i], j));
        }
        if strikes(was.gobs(), was.names(), room, j) {
            assert(strikes(was.gobs(), was.names(), rooms[k], j));
        }
    }
    assert forall|j: int| 0 <= j < was.gobs().len() implies if struck(
        was.gobs(),
        was.names(),
        rooms,
        next,
        j as Id,
    ) && was.gobs()[j].named() {
        (#[trigger] now.gobs()[j]).is_blank(was.nil())
    } else {
        now.gobs()[j] == was.gobs()[j]
    } by {
        if struck(was.gobs(), was.names(), rooms, k, j as Id) && was.gobs()[j].named() {
            assert(mid.gobs()[j].is_blank(was.nil()));
            assert(!mid.gobs()[j].named());
            assert(now.gobs()[j] == mid.gobs()[j]);
        } else {
            assert(mid.gobs()[j] == was.gobs()[j]);
            let at_last = struck(mid.gobs(), mid.names(), one, 1, j as Id);
            assert(if at_last && mid.gobs()[j].named() {
                now.gobs()[j].is_blank(mid.nil())
            } else {
                now.gobs()[j] == mid.gobs()[j]
            });
        }
    }
    assert forall|n: Seq<char>| #[trigger]
        now.names().contains_key(n) <==> was.names().contains_key(n) && !(n.len() > 0 && struck(
            was.gobs(),
            was.names(),
            rooms,
            next,
            was.names()[n],
        )) by {
        assert(mid.names().contains_key(n) <==> was.names().contains_key(n) && !(n.len() > 0
            && struck(was.gobs(), was.names(), rooms, k, was.names()[n])));
        if mid.names().contains_key(n) {
            let id = mid.names()[n];
            assert(id == was.names()[n]);
            let at_last = struck(mid.gobs(), mid.names(), one, 1, id);
            assert(now.names().contains_key(n) <==> !(n.len() > 0 && at_last));
        }
    }
    assert forall|n: Seq<char>| #[trigger] now.names().contains_key(n) implies now.names()[n]
        == was.names()[n] by {
        assert(mid.names().contains_key(n));
    }
    assert forall|n: Seq<char>| #[trigger]
        went.contains(n) <==> exists|j: int| #[trigger] falls(was, rooms, k, j, n) by {
        if went.contains(n) {
            let j = choose|j: int| #[trigger] falls(mid, one, 0, j, n);
            assert(mid.gobs()[j] == was.gobs()[j]);
            assert(strikes(mid.gobs(), mid.names(), one[0], j as Id));
            assert(struck(mid.gobs(), mid.names(), one, 1, j as Id));
            assert(falls(was, rooms, k, j, n));
        }
        if exists|j: int| #[trigger] falls(was, rooms, k, j, n) {
            let j = choose|j: int| #[trigger] falls(was, rooms, k, j, n);
            assert(mid.gobs()[j] == was.gobs()[j]);
            assert(struck(mid.gobs(), mid.names(), one, 1, j as Id));
            assert(strikes(mid.gobs(), mid.names(), one[0], j as Id));
            assert(!struck(mid.gobs(), mid.names(), one, 0, j as Id));
            assert(falls(mid, one, 0, j, n));
        }
    }
}

/// Is a level's start without a room: did some room hold it, and do all those
/// that did lead nowhere now?
pub open spec fn is_homeless<F>(w: &World<F>, here: Seq<Seq<char>>) -> bool {
    here.len() > 0 && forall|i: int|
        0 <= i < here.len() ==> !w.names().contains_key(#[trigger] here[i])
}

/// Is nothing left of the rooms that held a point?
pub fn homeless<F>(w: &World<F>, here: &Vec<String>) -> (r: bool)
    ensures
        r == is_homeless(w, names::texts(here@)),
{
    let n: usize = here.len();
    if n == 0 {
        return false;
    }
    let mut i: usize = 0;
    while i < n
        invariant
            n == here@.len(),
            i <= n,
            forall|j: int|
                0 <= j < i ==> !w.names().contains_key(#[trigger] names::texts(here@)[j]),
        decreases n - i,
    {
        assert(names::texts(here@)[i as int] == here@[i as int]@);
        if w.find(here[i].as_str()).is_some() {
            return false;
        }
        i += 1;
    }
    true
}

/// Stream a level that is started at a checkpoint: the rooms that are behind it
/// go. What went, and whether the start itself has been left without a room,
/// which must not happen.
pub fn stream<F: Copy>(
    w: &mut World<F>,
    level: &Rooms<F>,
    points: &Checkpoints<F>,
    checkpoint: i64,
) -> (r: (Vec<String>, bool))
    requires
        old(w).wf(),
        ringless(old(w).gobs()),
        old(w).moves() + doomed_names(points, checkpoint).len() <= u64::MAX,
    ensures
        final(w).wf(),
        ringless(final(w).gobs()),
        cleared(
            final(w),
            old(w),
            doomed_names(points, checkpoint),
            doomed_names(points, checkpoint).len() as int,
        ),
        final(w).moves() == old(w).moves() + felled(
            old(w),
            doomed_names(points, checkpoint),
            doomed_names(points, checkpoint).len() as int,
        ),
        exists|worlds: Seq<World<F>>, parts: Seq<Seq<Seq<char>>>|
            {
                &&& #[trigger] room_by_room(worlds, doomed_names(points, checkpoint), parts)
                &&& worlds[0] == *old(w) && worlds.last() == *final(w)
                &&& names::texts(r.0@) == parts.flatten()
                &&& forall|k: int|
                    0 <= k < parts.len() ==> is_toll(
                        old(w),
                        doomed_names(points, checkpoint),
                        k,
                        #[trigger] parts[k],
                    )
            },
        r.1 == match points.place_of(checkpoint) {
            Some(i) => is_homeless(
                final(w),
                rooms::around(level.rooms(), points.list()[i].place, level.rooms().len() as int),
            ),
            None => false,
        },
{
    let list = points.gone_at(checkpoint);
    assert(names::texts(list@) =~= doomed_names(points, checkpoint));
    let gone = destroy_rooms(w, &list);
    let lost: bool = match points.find(checkpoint) {
        None => {
            assert(points.place_of(checkpoint) is None);
            false
        },
        Some(i) => {
            proof {
                points.first_is_the_one(checkpoint, i as int);
            }
            match points.get(i) {
                Some(c) => {
                    let here = rooms_around(level, &c.place);
                    assert(names::texts(here@) =~= rooms::around(
                        level.rooms(),
                        c.place,
                        level.rooms().len() as int,
                    ));
                    homeless(w, &here)
                },
                None => false,
            }
        },
    };
    (gone, lost)
}

/// No room that a checkpoint deletes can be found once the level has been
/// started at it, or behind it.
pub proof fn deleted_rooms_are_gone<F>(
    now: &World<F>,
    was: &World<F>,
    rooms: Seq<Seq<char>>,
    i: int,
)
    requires
        cleared(now, was, rooms, rooms.len() as int),
        0 <= i < rooms.len(),
        rooms[i].len() > 0,
    ensures
        !now.names().contains_key(rooms[i]),
{
    if was.names().contains_key(rooms[i]) {
        let id = was.names()[rooms[i]];
        assert(world::above(was.gobs(), id, 0) == Some(id));
        assert(strikes(was.gobs(), was.names(), rooms[i], id));
        assert(struck(was.gobs(), was.names(), rooms, rooms.len() as int, id));
    }
}

// ---------------------------------------------------------------------------
// What goes and what stays
// ---------------------------------------------------------------------------
/// When the first `k` of a list of rooms have been cleared, every named object
/// is blank that a chain of named objects leads up from to one of those rooms,
/// and its name leads nowhere.
pub proof fn whatever_hangs_off_a_room_goes<F>(
    now: &World<F>,
    was: &World<F>,
    rooms: Seq<Seq<char>>,
    k: int,
    i: int,
    way: Seq<Id>,
)
    requires
        cleared(now, was, rooms, k),
        0 <= i < k,
        was.names().contains_key(rooms[i]),
        world::chained(was.gobs(), way),
        way.last() == was.names()[rooms[i]],
        way[0] < was.gobs().len(),
        was.gobs()[way[0] as int].name@.len() > 0,
    ensures
        now.gobs()[way[0] as int].is_blank(was.nil()),
        was.names().contains_key(was.gobs()[way[0] as int].name@) && was.names()[was.gobs()[way[
            0] as int].name@] == way[0] ==> !now.names().contains_key(
            was.gobs()[way[0] as int].name@,
        ),
{
    world::a_chain_hangs_together(was.gobs(), way, way.last());
    assert(strikes(was.gobs(), was.names(), rooms[i], way[0]));
    assert(struck(was.gobs(), was.names(), rooms, k, way[0]));
    let j = way[0] as int;
    assert(j as Id == way[0]);
    assert(now.gobs()[j].is_blank(was.nil()));
}

/// Whatever does not stands as it stood: where the chain up from an object,
/// through named ones to one that hangs off nothing, comes by none of the rooms,
/// the object is as it was and its name leads to it.
pub proof fn whatever_hangs_off_no_room_stays<F>(
    now: &World<F>,
    was: &World<F>,
    rooms: Seq<Seq<char>>,
    k: int,
    way: Seq<Id>,
)
    requires
        cleared(now, was, rooms, k),
        world::chained(was.gobs(), way),
        way[0] < was.gobs().len(),
        way.last() < was.gobs().len() && was.gobs()[way.last() as int].parent is None,
        forall|i: int|
            0 <= i < k && was.names().contains_key(#[trigger] rooms[i]) ==> !way.contains(
                was.names()[rooms[i]],
            ),
    ensures
        now.gobs()[way[0] as int] == was.gobs()[way[0] as int],
        was.names().contains_key(was.gobs()[way[0] as int].name@) && was.names()[was.gobs()[way[
            0] as int].name@] == way[0] ==> now.names().contains_key(
            was.gobs()[way[0] as int].name@,
        ) && now.names()[was.gobs()[way[0] as int].name@] == way[0],
{
    assert(!struck(was.gobs(), was.names(), rooms, k, way[0])) by {
        if struck(was.gobs(), was.names(), rooms, k, way[0]) {
            let i = choose|i: int|
                0 <= i < k && #[trigger] strikes(was.gobs(), was.names(), rooms[i], way[0]);
            world::a_chain_hangs_together(was.gobs(), way, was.names()[rooms[i]]);
        }
    }
    let j = way[0] as int;
    assert(j as Id == way[0]);
    assert(now.gobs()[j] == was.gobs()[j]);
    let n = was.gobs()[j].name@;
    assert(now.names().contains_key(n) <==> was.names().contains_key(n) && !(n.len() > 0 && struck(
        was.gobs(),
        was.names(),
        rooms,
        k,
        was.names()[n],
    )));
}

/// A room is felled exactly if its name still leads somewhere when its turn
/// comes; and one more is counted for it.
pub proof fn a_standing_room_is_felled<F>(was: &World<F>, rooms: Seq<Seq<char>>, k: int)
    requires
        0 <= k < rooms.len(),
    ensures
        felled(was, rooms, 0) == 0,
        !was.names().contains_key(rooms[k]) ==> felled(was, rooms, k + 1) == felled(was, rooms, k),
        was.names().contains_key(rooms[k]) && (forall|i: int|
            0 <= i < k && was.names().contains_key(#[trigger] rooms[i]) ==> !world::hangs_off(
                was.gobs(),
                was.names()[rooms[k]],
                was.names()[rooms[i]],
            )) ==> felled(was, rooms, k + 1) == felled(was, rooms, k) + 1,
        was.names().contains_key(rooms[k]) && rooms[k].len() > 0 && (exists|i: int|
            0 <= i < k && was.names().contains_key(#[trigger] rooms[i]) && world::hangs_off(
                was.gobs(),
                was.names()[rooms[k]],
                was.names()[rooms[i]],
            )) ==> felled(was, rooms, k + 1) == felled(was, rooms, k),
{
    if was.names().contains_key(rooms[k]) {
        let id = was.names()[rooms[k]];
        if struck(was.gobs(), was.names(), rooms, k, id) {
            let i = choose|i: int|
                0 <= i < k && #[trigger] strikes(was.gobs(), was.names(), rooms[i], id);
            assert(was.names().contains_key(rooms[i]));
        }
        if exists|i: int|
            0 <= i < k && was.names().contains_key(#[trigger] rooms[i]) && world::hangs_off(
                was.gobs(),
                id,
                was.names()[rooms[i]],
            ) {
            let i = choose|i: int|
                0 <= i < k && was.names().contains_key(#[trigger] rooms[i]) && world::hangs_off(
                    was.gobs(),
                    id,
                    was.names()[rooms[i]],
                );
            assert(strikes(was.gobs(), was.names(), rooms[i], id));
        }
    }
}

/// Somebody is homeless who is in some room, and in none whose name still leads
/// anywhere.
pub proof fn one_room_is_home<F>(w: &World<F>, here: Seq<Seq<char>>, i: int)
    ensures
        here.len() == 0 ==> !is_homeless(w, here),
        0 <= i < here.len() && w.names().contains_key(here[i]) ==> !is_homeless(w, here),
        here.len() > 0 && (forall|j: int|
            0 <= j < here.len() ==> !w.names().contains_key(#[trigger] here[j])) ==> is_homeless(
            w,
            here,
        ),
{
}

/// The toll of a room is the names of all that a chain of named objects leads up
/// from to it, but for what an earlier room of the list had taken.
pub proof fn the_toll_is_what_hangs_off_the_room<F>(
    was: &World<F>,
    rooms: Seq<Seq<char>>,
    k: int,
    list: Seq<Seq<char>>,
    way: Seq<Id>,
)
    requires
        is_toll(was, rooms, k, list),
        was.gobs().len() <= 0x1_0000_0000,
        0 <= k < rooms.len(),
        world::chained(was.gobs(), way),
        way[0] < was.gobs().len(),
        was.gobs()[way[0] as int].name@.len() > 0,
    ensures
        was.names().contains_key(rooms[k]) && way.last() == was.names()[rooms[k]] && (forall|i: int|
            0 <= i < k && was.names().contains_key(#[trigger] rooms[i]) ==> !world::hangs_off(
                was.gobs(),
                way[0],
                was.names()[rooms[i]],
            )) ==> list.contains(was.gobs()[way[0] as int].name@),
        forall|n: Seq<char>| #[trigger]
            list.contains(n) ==> n.len() > 0 && was.names().contains_key(rooms[k]) && exists|j: int|
                0 <= j < was.gobs().len() && (#[trigger] was.gobs()[j]).name@ == n
                    && world::hangs_off(was.gobs(), j as Id, was.names()[rooms[k]]),
{
    world::a_chain_hangs_together(was.gobs(), way, way.last());
    let j = way[0] as int;
    assert(j as Id == way[0]);
    if was.names().contains_key(rooms[k]) && way.last() == was.names()[rooms[k]] && (forall|i: int|
        0 <= i < k && was.names().contains_key(#[trigger] rooms[i]) ==> !world::hangs_off(
            was.gobs(),
            way[0],
            was.names()[rooms[i]],
        )) {
        assert(!struck(was.gobs(), was.names(), rooms, k, way[0])) by {
            if struck(was.gobs(), was.names(), rooms, k, way[0]) {
                let i = choose|i: int|
                    0 <= i < k && #[trigger] strikes(was.gobs(), was.names(), rooms[i], way[0]);
                assert(was.names().contains_key(rooms[i]));
            }
        }
        assert(falls(was, rooms, k, j, was.gobs()[j].name@));
    }
    assert forall|n: Seq<char>| #[trigger] list.contains(n) implies n.len() > 0
        && was.names().contains_key(rooms[k]) && exists|j: int|
        0 <= j < was.gobs().len() && (#[trigger] was.gobs()[j]).name@ == n && world::hangs_off(
            was.gobs(),
            j as Id,
            was.names()[rooms[k]],
        ) by {
        let m = choose|m: int| #[trigger] falls(was, rooms, k, m, n);
        assert(was.gobs()[m].name@ == n);
    }
}

/// The rooms that go at a checkpoint are those on the lists of the checkpoints
/// up to it.
pub proof fn every_room_behind_the_checkpoint_goes<F>(
    c: &Checkpoints<F>,
    checkpoint: i64,
    i: int,
    k: int,
)
    requires
        0 <= i < c.list().len(),
        c.list()[i].index <= checkpoint,
        0 <= k < c.list()[i].delete@.len(),
    ensures
        doomed_names(c, checkpoint).contains(c.list()[i].delete@[k]@),
{
    let n = c.list().len() as int;
    rooms::every_list_up_to_the_checkpoint_counts(c.list(), checkpoint, n - 1, i, k);
    let all = rooms::doomed(c.list(), checkpoint, n);
    let at = choose|at: int| 0 <= at < all.len() && all[at] == c.list()[i].delete@[k];
    assert(names::texts(all)[at] == c.list()[i].delete@[k]@);
}

/// Parents come first exactly if everything hangs off something that was
/// registered before it, or off nothing.
pub proof fn parents_come_before_their_children<F>(gobs: Seq<Gob<F>>, i: int, p: Id)
    ensures
        parents_first(gobs) && 0 <= i < gobs.len() && gobs[i].parent == Some(p) ==> p < i,
        0 <= i < gobs.len() && gobs[i].parent == Some(p) && p >= i ==> !parents_first(gobs),
        (forall|j: int| 0 <= j < gobs.len() ==> (#[trigger] gobs[j]).parent is None)
            ==> parents_first(gobs),
{
    if 0 <= i < gobs.len() && gobs[i].parent == Some(p) && parents_first(gobs) {
        let g = gobs[i];
        assert(g.parent matches Some(q) ==> q < i);
    }
}

/// Room by room, each room is taken out of the world that the rooms before it
/// have left, and what went with it is a part of its own.
pub proof fn each_room_is_taken_in_its_turn<F>(
    worlds: Seq<World<F>>,
    rooms: Seq<Seq<char>>,
    parts: Seq<Seq<Seq<char>>>,
    k: int,
)
    requires
        room_by_room(worlds, rooms, parts),
        0 <= k < rooms.len(),
    ensures
        parts.len() == rooms.len() && worlds.len() == rooms.len() + 1,
        cleared(&worlds[k + 1], &worlds[k], seq![rooms[k]], 1),
        lists_subtree(&worlds[k], rooms[k], parts[k]),
{
    let part = parts[k];
    assert(took(&worlds[k + 1], &worlds[k], rooms[k], part));
}

} // verus!
