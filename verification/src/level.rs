//! Starting a level, and what is drawn of it.
use crate::order;
use crate::rooms::{Rooms, Visibility};
use crate::tables;
use crate::text;
use crate::world::{Gob, Id, World};
use vstd::prelude::*;

verus! {

pub const OBJ_ROOM: i64 = 803;

pub const OBJ_STATICLIGHT: i64 = 802;

pub const OBJ_AMBIENTSOUND: i64 = 1101;

/// A checkpoint, whose own name is not the name of its model.
pub const OBJ_CHECKPOINT: i64 = 580;

// ---------------------------------------------------------------------------
// Starting
// ---------------------------------------------------------------------------
/// The chunk that starts a level: the two globals that the scripts want, and
/// the call.
pub open spec fn start_of(number: nat, checkpoint: nat, section: Seq<char>) -> Seq<char> {
    "levelchanged, sectionchanged = 1, 1\nlevel("@ + text::numeral(number) + ", "@ + text::numeral(
        checkpoint,
    ) + ", \""@ + section + "\")"@
}

/// The chunk that starts a level at a checkpoint.
pub fn start_chunk(number: u32, checkpoint: u32, section: &str) -> (out: String)
    ensures
        out@ == start_of(number as nat, checkpoint as nat, section@),
{
    let mut out: String = "levelchanged, sectionchanged = 1, 1\nlevel(".to_owned();
    let n = text::integer(number as i64);
    out.append(n.as_str());
    out.append(", ");
    let c = text::integer(checkpoint as i64);
    out.append(c.as_str());
    out.append(", \"");
    out.append(section);
    out.append("\")");
    out
}

/// The name of the file that a script asks for: in small letters, and a script
/// where it says nothing else.
pub open spec fn file_key(name: Seq<char>) -> Seq<char> {
    if text::lowered(name).contains('.') {
        text::lowered(name)
    } else {
        text::lowered(name) + ".lua"@
    }
}

/// The name of the file that a script asks for.
pub fn dofile_key(name: &str) -> (out: String)
    ensures
        out@ == file_key(name@),
{
    let mut out: String = text::lowercase(name);
    let c = text::chars_of(out.as_str());
    let n: usize = c.len();
    proof {
        text::first_char_range(c@, '.', 0);
    }
    let at: usize = text::find_char(c.as_slice(), '.', 0);
    if at == n {
        assert(!c@.contains('.')) by {
            if c@.contains('.') {
                let k = choose|k: int| 0 <= k < c@.len() && c@[k] == '.';
                assert(c@[k] != '.');
            }
        }
        out.append(".lua");
    } else {
        assert(c@[at as int] == '.');
    }
    out
}

/// Is this the name of a handler that is tried out: one for an event, but not
/// the one that has been called when the object was created?
pub open spec fn is_event(s: Seq<char>) -> bool {
    s.len() >= 2 && s[0] == 'O' && s[1] == 'n' && s != "OnCreate"@
}

/// The names of the handlers that are tried out, in order.
pub fn event_slots(all: Vec<String>) -> (out: Vec<String>)
    ensures
        order::in_order(out@),
        out@.to_multiset() =~= all@.filter(|s: String| is_event(s@)).to_multiset(),
{
    let ghost was = all@;
    let mut out: Vec<String> = Vec::new();
    let mut from: Vec<String> = all;
    let ghost mut k: int = 0;
    let create: String = "OnCreate".to_owned();
    assert(was.skip(0) == was);
    assert(was.take(0).filter(|s: String| is_event(s@)) =~= Seq::<String>::empty()) by {
        reveal(Seq::filter);
    }
    while from.len() > 0
        invariant
            0 <= k <= was.len(),
            from@ == was.skip(k),
            create@ == "OnCreate"@,
            out@ == was.take(k).filter(|s: String| is_event(s@)),
        decreases from@.len(),
    {
        let s = from.remove(0);
        proof {
            assert(was.skip(k)[0] == was[k]);
            assert(was.skip(k).remove(0) =~= was.skip(k + 1));
            assert(was.take(k + 1).drop_last() == was.take(k));
            assert(was.take(k + 1).last() == was[k]);
            reveal(Seq::filter);
        }
        let c = text::chars_of(s.as_str());
        if c.len() >= 2 && c[0] == 'O' && c[1] == 'n' && !(s == create) {
            out.push(s);
        }
        proof {
            k = k + 1;
        }
    }
    assert(was.take(was.len() as int) == was);
    order::sorted(out)
}

// ---------------------------------------------------------------------------
// What is worn
// ---------------------------------------------------------------------------
/// Does a name end in `.wav`, in letters of any case?
pub open spec fn is_sound(s: Seq<char>) -> bool {
    s.len() >= 4 && text::lowered(s).skip(s.len() - 4) == ".wav"@
}

fn sound_named(s: &str) -> (r: bool)
    ensures
        r == is_sound(s@),
{
    let low = text::lowercase(s);
    let c = text::chars_of(low.as_str());
    let n: usize = c.len();
    proof {
        reveal_strlit(".wav");
    }
    if n < 4 {
        return false;
    }
    let r: bool = c[n - 4] == '.' && c[n - 3] == 'w' && c[n - 2] == 'a' && c[n - 1] == 'v';
    proof {
        let tail = text::lowered(s@).skip(s@.len() - 4);
        assert(tail.len() == 4);
        if r {
            assert(tail =~= ".wav"@);
        } else {
            assert(tail[0] == c@[n - 4] && tail[1] == c@[n - 3] && tail[2] == c@[n - 2] && tail[3]
                == c@[n - 1]);
        }
    }
    r
}

/// The model that the four characters wear who are played.
pub open spec fn hero_model(kind: i64) -> Option<&'static str> {
    if kind == 100 {
        Some("kurt")
    } else if kind == 101 {
        Some("max")
    } else if kind == 102 {
        Some("dr")
    } else if kind == 103 {
        Some("hyde")
    } else {
        None
    }
}

/// The model that is named for a type: in the tables, or for one of the four
/// characters.
pub open spec fn named_model(kind: i64) -> Option<&'static str> {
    match tables::table_model_of(kind) {
        Some(m) => Some(m),
        None => hero_model(kind),
    }
}

fn model_named(kind: i64) -> (r: Option<&'static str>)
    ensures
        r == named_model(kind),
{
    match tables::table_model(kind) {
        Some(m) => Some(m),
        None => if kind == 100 {
            Some("kurt")
        } else if kind == 101 {
            Some("max")
        } else if kind == 102 {
            Some("dr")
        } else if kind == 103 {
            Some("hyde")
        } else {
            None
        },
    }
}

/// The model that a type wears: what is named for it, and else the name of the
/// type without what all of them begin with. A checkpoint wears none.
pub open spec fn type_model(kind: i64, type_label: Option<Seq<char>>) -> Option<Seq<char>> {
    match named_model(kind) {
        Some(m) => Some(m@),
        None => if kind == OBJ_CHECKPOINT {
            None
        } else {
            match type_label {
                Some(n) => Some(text::lowered(n.skip(4))),
                None => None,
            }
        },
    }
}

/// A name that may be missing, as text.
pub open spec fn maybe(s: Option<&str>) -> Option<Seq<char>> {
    match s {
        Some(s) => Some(s@),
        None => None,
    }
}

/// The model that a type wears. `type_label` is the name of the type, which
/// begins with four characters that all of them do.
pub fn model_for_type(kind: i64, type_label: Option<&str>) -> (r: Option<String>)
    requires
        type_label matches Some(n) ==> n@.len() >= 4,
    ensures
        match r {
            Some(m) => type_model(kind, maybe(type_label)) == Some(m@),
            None => type_model(kind, maybe(type_label)) is None,
        },
{
    match model_named(kind) {
        Some(m) => Some(m.to_owned()),
        None => {
            if kind == OBJ_CHECKPOINT {
                return None;
            }
            match type_label {
                None => None,
                Some(n) => {
                    let low = text::lowercase(n);
                    let c = text::chars_of(low.as_str());
                    let mut out: Vec<char> = Vec::new();
                    text::append_range(&mut out, c.as_slice(), 4, c.len());
                    assert(out@ =~= text::lowered(n@.skip(4)));
                    Some(text::string_of(out.as_slice()))
                },
            }
        },
    }
}

/// The model that an object wears: what is named for its type, else what it was
/// registered with, unless that is a sound, else what its type wears.
pub open spec fn worn(kind: i64, resource: Option<Seq<char>>, type_label: Option<Seq<char>>) -> Option<
    Seq<char>,
> {
    match named_model(kind) {
        Some(m) => Some(m@),
        None => match resource {
            Some(r) => if is_sound(r) {
                type_model(kind, type_label)
            } else {
                Some(r)
            },
            None => type_model(kind, type_label),
        },
    }
}

/// The model that an object wears.
pub fn model_of(kind: i64, resource: Option<&str>, type_label: Option<&str>) -> (r: Option<String>)
    requires
        type_label matches Some(n) ==> n@.len() >= 4,
    ensures
        match r {
            Some(m) => worn(kind, maybe(resource), maybe(type_label)) == Some(m@),
            None => worn(kind, maybe(resource), maybe(type_label)) is None,
        },
{
    if let Some(m) = model_named(kind) {
        return Some(m.to_owned());
    }
    if let Some(r) = resource {
        if !sound_named(r) {
            return Some(r.to_owned());
        }
    }
    model_for_type(kind, type_label)
}

/// A walker wears the model that is named for it, whatever it was registered
/// with: that is a waypoint.
pub proof fn a_walker_wears_its_own_model(
    kind: i64,
    resource: Option<Seq<char>>,
    type_label: Option<Seq<char>>,
)
    requires
        named_model(kind) is Some,
    ensures
        worn(kind, resource, type_label) == Some(named_model(kind)->Some_0@),
        type_model(kind, type_label) == worn(kind, resource, type_label),
{
}

/// What is placed for an object when a level is drawn, and whether its type
/// named it: what it was registered with, unless that is a sound, else what its
/// type wears.
pub open spec fn placed_as(
    kind: i64,
    resource: Option<Seq<char>>,
    type_label: Option<Seq<char>>,
) -> Option<(Seq<char>, bool)> {
    match resource {
        Some(s) if !is_sound(s) => Some((s, false)),
        _ => match type_model(kind, type_label) {
            Some(m) => Some((m, true)),
            None => None,
        },
    }
}

/// What is placed for an object when a level is drawn, and whether its type
/// named it.
pub fn placement(kind: i64, resource: Option<&str>, type_label: Option<&str>) -> (r: Option<
    (String, bool),
>)
    requires
        type_label matches Some(n) ==> n@.len() >= 4,
    ensures
        match r {
            Some(p) => placed_as(kind, maybe(resource), maybe(type_label)) == Some((p.0@, p.1)),
            None => placed_as(kind, maybe(resource), maybe(type_label)) is None,
        },
{
    if let Some(s) = resource {
        if !sound_named(s) {
            return Some((s.to_owned(), false));
        }
    }
    match model_for_type(kind, type_label) {
        Some(m) => Some((m, true)),
        None => None,
    }
}

/// What has been drawn of a level.
#[derive(Clone, Copy, Debug, PartialEq, Eq, Structural)]
pub struct Loaded {
    pub objects: usize,
    pub placed: usize,
    /// What names no model that could be had.
    pub without_a_model: usize,
    pub triangles: usize,
    /// What was placed because its type named it.
    pub by_type: usize,
}

/// Where a model goes.
#[derive(Clone, Copy, Debug, PartialEq, Eq, Structural)]
pub enum Place {
    /// Where it is: its vertices are in the world's coordinates already.
    World,
    /// To the position and the rotation of its object.
    Object,
}

/// Where a model goes. One that stands still is in the world's coordinates
/// already; only one that is animated is moved to its object.
pub fn place_of(animated: bool) -> (r: Place)
    ensures
        r == (if animated {
            Place::Object
        } else {
            Place::World
        }),
{
    if animated {
        Place::Object
    } else {
        Place::World
    }
}

/// Something to be drawn: the model of an object, and the room it is in.
#[derive(Debug)]
pub struct Placed {
    pub id: Id,
    pub model: String,
    /// Its type named the model.
    pub by_type: bool,
    pub room: Option<usize>,
}

/// How many of the first `n` were placed, how many were not, and how many of
/// those placed were named by their type. What has been found of each model is
/// whether it is animated, or nothing where it could not be had.
pub open spec fn placed_of(list: Seq<Placed>, found: Seq<Option<bool>>, n: int) -> (int, int, int)
    decreases n,
{
    if n <= 0 {
        (0, 0, 0)
    } else {
        let (a, b, c) = placed_of(list, found, n - 1);
        if found[n - 1] is None {
            (a, b + 1, c)
        } else if list[n - 1].by_type {
            (a + 1, b, c + 1)
        } else {
            (a + 1, b, c)
        }
    }
}

/// Where each model goes that could be had.
pub fn places(found: &Vec<Option<bool>>) -> (out: Vec<Option<Place>>)
    ensures
        out@.len() == found@.len(),
        forall|k: int|
            0 <= k < found@.len() ==> (#[trigger] out@[k]) == (match found@[k] {
                Some(true) => Some(Place::Object),
                Some(false) => Some(Place::World),
                None => None,
            }),
{
    let n: usize = found.len();
    let mut out: Vec<Option<Place>> = Vec::new();
    let mut i: usize = 0;
    while i < n
        invariant
            n == found@.len(),
            i <= n,
            out@.len() == i,
            forall|k: int|
                0 <= k < i ==> (#[trigger] out@[k]) == (match found@[k] {
                    Some(true) => Some(Place::Object),
                    Some(false) => Some(Place::World),
                    None => None,
                }),
        decreases n - i,
    {
        let to: Option<Place> = match found[i] {
            Some(animated) => Some(place_of(animated)),
            None => None,
        };
        out.push(to);
        i += 1;
    }
    out
}

impl Loaded {
    /// Count what was placed of a world. `found` says of each model whether it
    /// is animated, or nothing where it could not be had.
    pub fn count<F>(
        w: &World<F>,
        list: &Vec<Placed>,
        found: &Vec<Option<bool>>,
        triangles: usize,
    ) -> (l: Loaded)
        requires
            found@.len() == list@.len(),
        ensures
            l.objects == w.gobs().len(),
            l.triangles == triangles,
            (l.placed as int, l.without_a_model as int, l.by_type as int) == placed_of(
                list@,
                found@,
                list@.len() as int,
            ),
            l.placed + l.without_a_model == list@.len(),
            l.by_type <= l.placed,
    {
        let n: usize = list.len();
        let (mut placed, mut without, mut by_type): (usize, usize, usize) = (0, 0, 0);
        let mut i: usize = 0;
        while i < n
            invariant
                n == list@.len(),
                found@.len() == n,
                i <= n,
                (placed as int, without as int, by_type as int) == placed_of(
                    list@,
                    found@,
                    i as int,
                ),
                placed + without == i,
                by_type <= placed,
            decreases n - i,
        {
            if found[i].is_some() {
                placed += 1;
                if list[i].by_type {
                    by_type += 1;
                }
            } else {
                without += 1;
            }
            i += 1;
        }
        Loaded { objects: w.len(), placed, without_a_model: without, triangles, by_type }
    }
}

// ---------------------------------------------------------------------------
// Where things are
// ---------------------------------------------------------------------------
/// The first room that an object is in or is, within so many steps up.
pub open spec fn first_room<F>(gobs: Seq<Gob<F>>, id: Id, n: nat) -> Option<Seq<char>>
    decreases n,
{
    if n == 0 || id >= gobs.len() {
        None
    } else if gobs[id as int].kind == OBJ_ROOM {
        Some(gobs[id as int].name@)
    } else {
        match gobs[id as int].parent {
            Some(p) => first_room(gobs, p, (n - 1) as nat),
            None => None,
        }
    }
}

/// Is this the room that an object is in: the first one up from it? A room
/// whose name is not one of the level's is none.
pub open spec fn is_room_of<F, G>(
    gobs: Seq<Gob<F>>,
    level: &Rooms<G>,
    id: Id,
    r: Option<usize>,
) -> bool {
    match first_room(gobs, id, 64) {
        Some(name) => match r {
            Some(i) => level.first_named(name, i as int),
            None => forall|i: int| !level.named(name, i),
        },
        None => r is None,
    }
}

/// The room that an object is in.
pub fn room_of<F, G>(w: &World<F>, level: &Rooms<G>, id: Id) -> (r: Option<usize>)
    ensures
        is_room_of(w.gobs(), level, id, r),
{
    let mut at: Id = id;
    let mut left: u32 = 64;
    while left > 0
        invariant
            left <= 64,
            first_room(w.gobs(), id, 64) == first_room(w.gobs(), at, left as nat),
        decreases left,
    {
        match w.get(at) {
            None => {
                return None;
            },
            Some(g) => {
                if g.kind == OBJ_ROOM {
                    return level.number(&g.name);
                }
                match g.parent {
                    None => {
                        return None;
                    },
                    Some(p) => {
                        at = p;
                    },
                }
            },
        }
        left -= 1;
    }
    None
}

/// A text that may be missing.
pub open spec fn maybe_string(s: Option<String>) -> Option<Seq<char>> {
    match s {
        Some(s) => Some(s@),
        None => None,
    }
}

/// What is placed for the object `i`, and whether its type named it.
pub open spec fn placed_for<F>(gobs: Seq<Gob<F>>, labels: Seq<Option<String>>, i: int) -> Option<
    (Seq<char>, bool),
> {
    placed_as(gobs[i].kind, maybe_string(gobs[i].resource), maybe_string(labels[i]))
}

/// Are the objects in their order, and none twice?
pub open spec fn by_id(list: Seq<Placed>) -> bool {
    forall|i: int, j: int|
        0 <= i < j < list.len() ==> (#[trigger] list[i]).id < (#[trigger] list[j]).id
}

/// Is something placed for an object?
pub open spec fn places_id(list: Seq<Placed>, id: Id) -> bool {
    exists|k: int| 0 <= k < list.len() && (#[trigger] list[k]).id == id
}

/// A text that may be missing, borrowed.
fn text_of(s: &Option<String>) -> (r: Option<&str>)
    ensures
        maybe(r) == maybe_string(*s),
        r is Some == s is Some,
{
    match s {
        Some(s) => Some(s.as_str()),
        None => None,
    }
}

/// A list in which every object is before `n` is no longer than that.
proof fn listed_once(list: Seq<Placed>, n: int)
    requires
        by_id(list),
        0 <= n,
        forall|k: int| 0 <= k < list.len() ==> (#[trigger] list[k]).id < n,
    ensures
        list.len() <= n,
    decreases list.len(),
{
    if list.len() > 0 {
        let last = list.last();
        assert(list[list.len() - 1].id < n);
        let rest = list.drop_last();
        assert forall|k: int| 0 <= k < rest.len() implies (#[trigger] rest[k]).id < last.id by {
            assert(list[k].id < list[list.len() - 1].id);
        }
        assert(by_id(rest)) by {
            assert forall|i: int, j: int| 0 <= i < j < rest.len() implies (#[trigger] rest[i]).id < (
            #[trigger] rest[j]).id by {
                assert(list[i].id < list[j].id);
            }
        }
        listed_once(rest, last.id as int);
    }
}

/// What is placed when a level is started: for every object that names a model
/// or whose type does, in the order of the objects. `labels` holds for each
/// object the name of its type, which begins with four characters that all of
/// them do.
pub fn placements<F, G>(w: &World<F>, level: &Rooms<G>, labels: &Vec<Option<String>>) -> (out: Vec<
    Placed,
>)
    requires
        w.wf(),
        labels@.len() == w.gobs().len(),
        forall|i: int|
            0 <= i < labels@.len() ==> (#[trigger] labels@[i] matches Some(n) ==> n@.len() >= 4),
    ensures
        by_id(out@),
        forall|id: Id| #[trigger]
            places_id(out@, id) <==> id < w.gobs().len() && placed_for(
                w.gobs(),
                labels@,
                id as int,
            ) is Some,
        forall|k: int|
            0 <= k < out@.len() ==> {
                let p = #[trigger] out@[k];
                &&& p.id < w.gobs().len()
                &&& placed_for(w.gobs(), labels@, p.id as int) == Some((p.model@, p.by_type))
                &&& is_room_of(w.gobs(), level, p.id, p.room)
            },
        out@.len() <= w.gobs().len(),
{
    let n: usize = w.len();
    let mut out: Vec<Placed> = Vec::new();
    let mut i: usize = 0;
    while i < n
        invariant
            n == w.gobs().len(),
            n <= 0x1_0000_0000,
            i <= n,
            labels@.len() == n,
            forall|i: int|
                0 <= i < labels@.len() ==> (#[trigger] labels@[i] matches Some(n) ==> n@.len()
                    >= 4),
            by_id(out@),
            forall|id: Id| #[trigger]
                places_id(out@, id) <==> id < i && placed_for(w.gobs(), labels@, id as int) is Some,
            forall|k: int|
                0 <= k < out@.len() ==> {
                    let p = #[trigger] out@[k];
                    &&& p.id < i
                    &&& placed_for(w.gobs(), labels@, p.id as int) == Some((p.model@, p.by_type))
                    &&& is_room_of(w.gobs(), level, p.id, p.room)
                },
        decreases n - i,
    {
        let ghost before = out@;
        let id: Id = i as Id;
        if let Some(g) = w.get(id) {
            let label: &Option<String> = &labels[i];
            let named = placement(g.kind, text_of(&g.resource), text_of(label));
            if let Some((model, by_type)) = named {
                let room = room_of(w, level, id);
                out.push(Placed { id, model, by_type, room });
                assert(out@[before.len() as int].id == id);
            }
        }
        proof {
            assert forall|x: Id| #[trigger]
                places_id(out@, x) <==> x < i + 1 && placed_for(
                    w.gobs(),
                    labels@,
                    x as int,
                ) is Some by {
                assert(places_id(before, x) <==> x < i && placed_for(
                    w.gobs(),
                    labels@,
                    x as int,
                ) is Some);
                if places_id(before, x) {
                    let k = choose|k: int| 0 <= k < before.len() && (#[trigger] before[k]).id == x;
                    assert(out@[k].id == x);
                }
                if places_id(out@, x) {
                    let k = choose|k: int| 0 <= k < out@.len() && (#[trigger] out@[k]).id == x;
                    if k < before.len() {
                        assert(before[k].id == x);
                    }
                }
            }
        }
        i += 1;
    }
    proof {
        listed_once(out@, n as int);
    }
    out
}

/// What is placed when a scene graph alone is drawn: for every object that was
/// registered with something, in their order, that.
pub fn graph_placements<F>(w: &World<F>) -> (out: Vec<Placed>)
    requires
        w.wf(),
    ensures
        by_id(out@),
        forall|id: Id| #[trigger]
            places_id(out@, id) <==> id < w.gobs().len() && w.gobs()[id as int].resource is Some,
        forall|k: int|
            0 <= k < out@.len() ==> {
                let p = #[trigger] out@[k];
                &&& p.id < w.gobs().len()
                &&& maybe_string(w.gobs()[p.id as int].resource) == Some(p.model@)
                &&& !p.by_type && p.room is None
            },
        out@.len() <= w.gobs().len(),
{
    let n: usize = w.len();
    let mut out: Vec<Placed> = Vec::new();
    let mut i: usize = 0;
    while i < n
        invariant
            n == w.gobs().len(),
            n <= 0x1_0000_0000,
            i <= n,
            by_id(out@),
            forall|id: Id| #[trigger]
                places_id(out@, id) <==> id < i && w.gobs()[id as int].resource is Some,
            forall|k: int|
                0 <= k < out@.len() ==> {
                    let p = #[trigger] out@[k];
                    &&& p.id < i
                    &&& maybe_string(w.gobs()[p.id as int].resource) == Some(p.model@)
                    &&& !p.by_type && p.room is None
                },
        decreases n - i,
    {
        let ghost before = out@;
        let id: Id = i as Id;
        if let Some(g) = w.get(id) {
            if let Some(model) = text_of(&g.resource) {
                out.push(Placed { id, model: model.to_owned(), by_type: false, room: None });
                assert(out@[before.len() as int].id == id);
            }
        }
        proof {
            assert forall|x: Id| #[trigger]
                places_id(out@, x) <==> x < i + 1 && w.gobs()[x as int].resource is Some by {
                assert(places_id(before, x) <==> x < i && w.gobs()[x as int].resource is Some);
                if places_id(before, x) {
                    let k = choose|k: int| 0 <= k < before.len() && (#[trigger] before[k]).id == x;
                    assert(out@[k].id == x);
                }
                if places_id(out@, x) {
                    let k = choose|k: int| 0 <= k < out@.len() && (#[trigger] out@[k]).id == x;
                    if k < before.len() {
                        assert(before[k].id == x);
                    }
                }
            }
        }
        i += 1;
    }
    proof {
        listed_once(out@, n as int);
    }
    out
}

/// The lights of a level, which ships them as objects, in their order.
pub fn lights<F>(w: &World<F>) -> (out: Vec<Id>)
    requires
        w.wf(),
    ensures
        forall|i: int, j: int| 0 <= i < j < out@.len() ==> out@[i] < out@[j],
        forall|id: Id| #[trigger]
            out@.contains(id) <==> id < w.gobs().len() && w.gobs()[id as int].kind
                == OBJ_STATICLIGHT,
{
    let n: usize = w.len();
    let mut out: Vec<Id> = Vec::new();
    let mut i: usize = 0;
    while i < n
        invariant
            n == w.gobs().len(),
            n <= 0x1_0000_0000,
            i <= n,
            forall|a: int, b: int| 0 <= a < b < out@.len() ==> out@[a] < out@[b],
            forall|k: int| 0 <= k < out@.len() ==> (#[trigger] out@[k]) < i,
            forall|id: Id| #[trigger]
                out@.contains(id) <==> id < i && w.gobs()[id as int].kind == OBJ_STATICLIGHT,
        decreases n - i,
    {
        let ghost before = out@;
        let id: Id = i as Id;
        if let Some(g) = w.get(id) {
            if g.kind == OBJ_STATICLIGHT {
                out.push(id);
                assert(out@[before.len() as int] == id);
            }
        }
        proof {
            assert forall|x: Id| #[trigger]
                out@.contains(x) <==> x < i + 1 && w.gobs()[x as int].kind == OBJ_STATICLIGHT by {
                assert(before.contains(x) <==> x < i && w.gobs()[x as int].kind
                    == OBJ_STATICLIGHT);
                if before.contains(x) {
                    let k = before.index_of(x);
                    assert(out@[k] == x);
                }
                if out@.contains(x) {
                    let k = out@.index_of(x);
                    if k < before.len() {
                        assert(before[k] == x);
                    }
                }
            }
        }
        i += 1;
    }
    out
}

/// The rooms that are drawn from a room: those that it names, and itself, in
/// order and each once.
pub fn drawn_from<F>(level: &Rooms<F>, room: usize) -> (out: Vec<usize>)
    requires
        room < level.rooms().len(),
        level.wf(),
    ensures
        order::in_order(out@),
        out@.no_duplicates(),
        forall|x: usize| #[trigger]
            out@.contains(x) <==> x == room || level.rooms()[room as int].visible@.contains(x),
{
    let mut all: Vec<usize> = Vec::new();
    let mut own: bool = false;
    if let Some(r) = level.get(room) {
        let n: usize = r.visible.len();
        let mut i: usize = 0;
        while i < n
            invariant
                n == r.visible@.len(),
                i <= n,
                all@ == r.visible@.take(i as int),
                own <==> r.visible@.take(i as int).contains(room),
            decreases n - i,
        {
            let x: usize = r.visible[i];
            let ghost before = r.visible@.take(i as int);
            let ghost after = r.visible@.take(i + 1);
            proof {
                assert(after == before.push(x));
                assert(after[i as int] == x);
                if before.contains(room) {
                    let k = choose|k: int| 0 <= k < before.len() && before[k] == room;
                    assert(after[k] == room);
                }
                if after.contains(room) && x != room {
                    let k = choose|k: int| 0 <= k < after.len() && after[k] == room;
                    assert(before[k] == room);
                }
            }
            if x == room {
                own = true;
            }
            all.push(x);
            i += 1;
        }
        assert(r.visible@.take(n as int) == r.visible@);
    }
    let ghost named = all@;
    if !own {
        all.push(room);
        assert(all@[named.len() as int] == room);
        assert(all@.no_duplicates());
    }
    let ghost list = all@;
    let out = order::sorted(all);
    proof {
        order::same_values(out@, list);
        assert forall|x: usize| #[trigger] out@.contains(x) <==> x == room
            || level.rooms()[room as int].visible@.contains(x) by {
            assert(out@.contains(x) <==> list.contains(x));
            if named.contains(x) {
                let k = choose|k: int| 0 <= k < named.len() && named[k] == x;
                assert(list[k] == x);
            }
            if list.contains(x) && x != room {
                let k = choose|k: int| 0 <= k < list.len() && list[k] == x;
                assert(named[k] == x);
            }
        }
    }
    out
}

/// The boxes of a level's rooms, and what is drawn from each. A room that no
/// script has boxed has the box of its object, in `own`.
pub fn visibility<F: Copy>(level: &Rooms<F>, own: &Vec<Option<[i64; 6]>>) -> (v: Visibility<F>)
    requires
        level.wf(),
        own@.len() == level.rooms().len(),
    ensures
        v.wf(),
        v.names@.len() == level.rooms().len(),
        v.visible@.len() == level.rooms().len(),
        v.env@.len() == level.rooms().len(),
        v.music@.len() == level.rooms().len(),
        forall|i: int|
            0 <= i < level.rooms().len() ==> {
                let r = #[trigger] level.rooms()[i];
                &&& v.names@[i]@ == r.name@
                &&& v.boxes@[i] == (if r.bbox is Some {
                    r.bbox
                } else {
                    own@[i]
                })
                &&& v.env@[i] == r.env
                &&& v.music@[i] == r.music
                &&& order::in_order(v.visible@[i]@)
                &&& v.visible@[i]@.no_duplicates()
                &&& forall|x: usize| #[trigger]
                    v.visible@[i]@.contains(x) <==> x == i || r.visible@.contains(x)
            },
{
    let n: usize = level.len();
    let mut v: Visibility<F> = Visibility {
        names: Vec::new(),
        boxes: Vec::new(),
        visible: Vec::new(),
        env: Vec::new(),
        music: Vec::new(),
    };
    let mut i: usize = 0;
    while i < n
        invariant
            n == level.rooms().len(),
            own@.len() == n,
            level.wf(),
            i <= n,
            v.names@.len() == i,
            v.boxes@.len() == i,
            v.visible@.len() == i,
            v.env@.len() == i,
            v.music@.len() == i,
            forall|k: int|
                0 <= k < i ==> {
                    let r = #[trigger] level.rooms()[k];
                    &&& v.names@[k]@ == r.name@
                    &&& v.boxes@[k] == (if r.bbox is Some {
                        r.bbox
                    } else {
                        own@[k]
                    })
                    &&& v.env@[k] == r.env
                    &&& v.music@[k] == r.music
                    &&& order::in_order(v.visible@[k]@)
                    &&& v.visible@[k]@.no_duplicates()
                    &&& forall|x: usize| #[trigger]
                        v.visible@[k]@.contains(x) <==> x == k || r.visible@.contains(x)
                },
        decreases n - i,
    {
        let seen = drawn_from(level, i);
        if let Some(r) = level.get(i) {
            v.names.push(r.name.clone());
            let b: Option<[i64; 6]> = match r.bbox {
                Some(b) => Some(b),
                None => own[i],
            };
            v.boxes.push(b);
            v.visible.push(seen);
            v.env.push(r.env);
            v.music.push(r.music);
        }
        i += 1;
    }
    v
}

// ---------------------------------------------------------------------------
// What everything wears
// ---------------------------------------------------------------------------
/// Everything that can be carried, every shot and every walker wears the model
/// of its row, whatever its type is called and whatever it was registered with.
pub proof fn the_tables_name_the_models(
    i: int,
    resource: Option<Seq<char>>,
    type_label: Option<Seq<char>>,
)
    ensures
        0 <= i < 49 ==> type_model(tables::ITEM@[i].0, type_label) == Some(tables::ITEM@[i].1@)
            && worn(tables::ITEM@[i].0, resource, type_label) == Some(tables::ITEM@[i].1@),
        0 <= i < 69 ==> type_model(tables::BULLET@[i].0, type_label) == Some(
            tables::BULLET@[i].1@,
        ) && worn(tables::BULLET@[i].0, resource, type_label) == Some(tables::BULLET@[i].1@),
        0 <= i < 19 ==> type_model(tables::BASE_HITPOINTS@[i].0, type_label) == Some(
            tables::BASE_HITPOINTS@[i].1@,
        ) && worn(tables::BASE_HITPOINTS@[i].0, resource, type_label) == Some(
            tables::BASE_HITPOINTS@[i].1@,
        ),
{
    if 0 <= i < 49 {
        tables::every_item_wears_its_model(i);
    }
    if 0 <= i < 69 {
        tables::every_shot_wears_its_model(i);
    }
    if 0 <= i < 19 {
        tables::every_walker_wears_its_model(i);
    }
}

/// Is a type in none of the three tables?
pub open spec fn in_no_table(kind: i64) -> bool {
    &&& forall|j: int| 0 <= j < 49 ==> (#[trigger] tables::ITEM@[j]).0 != kind
    &&& forall|j: int| 0 <= j < 69 ==> (#[trigger] tables::BULLET@[j]).0 != kind
    &&& forall|j: int| 0 <= j < 19 ==> (#[trigger] tables::BASE_HITPOINTS@[j]).0 != kind
}

/// The four who are played wear their own models.
pub proof fn the_four_wear_their_own(resource: Option<Seq<char>>, type_label: Option<Seq<char>>)
    ensures
        worn(100, resource, type_label) == Some("kurt"@),
        worn(101, resource, type_label) == Some("max"@),
        worn(102, resource, type_label) == Some("dr"@),
        worn(103, resource, type_label) == Some("hyde"@),
        type_model(100, type_label) == Some("kurt"@),
        type_model(101, type_label) == Some("max"@),
        type_model(102, type_label) == Some("dr"@),
        type_model(103, type_label) == Some("hyde"@),
{
    assert forall|kind: i64| 100 <= kind < 104 implies #[trigger] tables::table_model_of(
        kind,
    ) is None by {
        assert(forall|j: int| 0 <= j < 49 ==> (#[trigger] tables::ITEM@[j]).0 >= 200);
        assert(forall|j: int| 0 <= j < 69 ==> (#[trigger] tables::BULLET@[j]).0 >= 200);
        assert(forall|j: int| 0 <= j < 19 ==> (#[trigger] tables::BASE_HITPOINTS@[j]).0 >= 200);
        tables::nothing_else_wears_a_model(kind);
    }
    assert(tables::table_model_of(100) is None && tables::table_model_of(101) is None);
    assert(tables::table_model_of(102) is None && tables::table_model_of(103) is None);
}

/// Whatever the tables do not name wears what it was registered with, unless
/// that is a sound. Else it wears the name of its type, behind the first four
/// characters and in small letters; a checkpoint, or what has no name of a type
/// either, wears nothing.
pub proof fn the_others_wear_what_they_have(
    kind: i64,
    resource: Option<Seq<char>>,
    type_label: Option<Seq<char>>,
)
    requires
        in_no_table(kind),
        kind < 100 || kind > 103,
    ensures
        ({
            let by_type = if kind == 580 || type_label is None {
                None
            } else {
                Some(text::lowered(type_label->Some_0.skip(4)))
            };
            &&& type_model(kind, type_label) == by_type
            &&& resource is None ==> worn(kind, resource, type_label) == by_type
            &&& resource matches Some(r) ==> (is_sound(r) ==> worn(kind, resource, type_label)
                == by_type) && (!is_sound(r) ==> worn(kind, resource, type_label) == Some(r))
        }),
{
    tables::nothing_else_wears_a_model(kind);
}

/// A name is that of a sound exactly if its last four characters are a point
/// and the three letters of the kind, small or capital.
pub proof fn sounds_end_in_wav(s: Seq<char>)
    ensures
        is_sound(s) <==> {
            &&& s.len() >= 4
            &&& s[s.len() - 4] == '.'
            &&& s[s.len() - 3] == 'w' || s[s.len() - 3] == 'W'
            &&& s[s.len() - 2] == 'a' || s[s.len() - 2] == 'A'
            &&& s[s.len() - 1] == 'v' || s[s.len() - 1] == 'V'
        },
{
    reveal_strlit(".wav");
    if s.len() >= 4 {
        let n = s.len() as int;
        text::only_capitals_are_lowered(s, n - 4);
        text::only_capitals_are_lowered(s, n - 3);
        text::only_capitals_are_lowered(s, n - 2);
        text::only_capitals_are_lowered(s, n - 1);
        let tail = text::lowered(s).skip(n - 4);
        assert(tail[0] == text::lower(s[n - 4]) && tail[1] == text::lower(s[n - 3]));
        assert(tail[2] == text::lower(s[n - 2]) && tail[3] == text::lower(s[n - 1]));
        if s[n - 4] == '.' && (s[n - 3] == 'w' || s[n - 3] == 'W') && (s[n - 2] == 'a' || s[n - 2]
            == 'A') && (s[n - 1] == 'v' || s[n - 1] == 'V') {
            assert(tail =~= ".wav"@);
        }
    }
}

/// What is drawn for an object is what it was registered with, and its type did
/// not name it; a sound, or nothing, leaves it to its type.
pub proof fn what_is_registered_is_placed(
    kind: i64,
    resource: Option<Seq<char>>,
    type_label: Option<Seq<char>>,
)
    ensures
        resource matches Some(r) ==> (!is_sound(r) ==> placed_as(kind, resource, type_label)
            == Some((r, false))),
        (resource is None || is_sound(resource->Some_0)) ==> (match type_model(kind, type_label) {
            Some(m) => placed_as(kind, resource, type_label) == Some((m, true)),
            None => placed_as(kind, resource, type_label) is None,
        }),
{
}

/// A file is asked for in small letters, and as a script where its name has no
/// point in it.
pub proof fn files_are_scripts_without_a_point(name: Seq<char>)
    ensures
        name.contains('.') ==> file_key(name) == text::lowered(name),
        !name.contains('.') ==> file_key(name) == text::lowered(name) + ".lua"@,
{
    let low = text::lowered(name);
    if name.contains('.') {
        let k = choose|k: int| 0 <= k < name.len() && name[k] == '.';
        text::only_capitals_are_lowered(name, k);
        assert(low[k] == '.');
    }
    if low.contains('.') {
        let k = choose|k: int| 0 <= k < low.len() && low[k] == '.';
        text::only_capitals_are_lowered(name, k);
        assert(name[k] == '.');
    }
}

/// The handlers that are tried out are those whose name begins with `On`, but
/// for the one of the creation.
pub proof fn events_begin_with_on(rest: Seq<char>, other: Seq<char>)
    ensures
        seq!['O', 'n'] + rest != "OnCreate"@ ==> is_event(seq!['O', 'n'] + rest),
        !is_event("OnCreate"@),
        is_event(other) ==> other.len() >= 2 && other.take(2) == seq!['O', 'n'],
{
    assert((seq!['O', 'n'] + rest)[0] == 'O' && (seq!['O', 'n'] + rest)[1] == 'n');
    if is_event(other) {
        assert(other.take(2) =~= seq!['O', 'n']);
    }
}

/// Going up from an object through those that each hangs off, over the list
/// `way` of them, the first room is the room it is in; it is looked for in the
/// object itself and sixty-three steps up.
pub proof fn the_first_room_up_is_found<F>(gobs: Seq<Gob<F>>, way: Seq<Id>, n: nat)
    requires
        0 < way.len() <= n,
        forall|k: int| 0 <= k < way.len() ==> (#[trigger] way[k]) < gobs.len(),
        forall|k: int|
            0 <= k < way.len() - 1 ==> gobs[(#[trigger] way[k]) as int].kind != OBJ_ROOM
                && gobs[way[k] as int].parent == Some(way[k + 1]),
    ensures
        gobs[way.last() as int].kind == OBJ_ROOM ==> first_room(gobs, way[0], n) == Some(
            gobs[way.last() as int].name@,
        ),
        gobs[way.last() as int].kind != OBJ_ROOM && (gobs[way.last() as int].parent is None
            || way.len() == n) ==> first_room(gobs, way[0], n) is None,
    decreases way.len(),
{
    let first = way[0];
    assert(first < gobs.len());
    if way.len() > 1 {
        assert(gobs[way[0] as int].kind != OBJ_ROOM && gobs[way[0] as int].parent == Some(way[1]));
        let rest = way.skip(1);
        assert forall|k: int| 0 <= k < rest.len() implies (#[trigger] rest[k]) < gobs.len() by {
            assert(rest[k] == way[k + 1]);
        }
        assert forall|k: int| 0 <= k < rest.len() - 1 implies gobs[(#[trigger] rest[k]) as int].kind
            != OBJ_ROOM && gobs[rest[k] as int].parent == Some(rest[k + 1]) by {
            assert(rest[k] == way[k + 1] && rest[k + 1] == way[k + 2]);
        }
        the_first_room_up_is_found(gobs, rest, (n - 1) as nat);
        assert(rest[0] == way[1]);
        assert(rest.last() == way.last());
    } else {
        assert(way.last() == first);
        match gobs[first as int].parent {
            Some(p) => {
                if n == 1 {
                    assert(first_room(gobs, p, 0) is None);
                }
            },
            None => {},
        }
    }
}

/// Of what could be had, all is placed and counted, and so is what could not;
/// and of what was placed, what its type named.
pub proof fn everything_placed_is_counted(list: Seq<Placed>, found: Seq<Option<bool>>, n: int)
    requires
        0 <= n <= list.len(),
        list.len() == found.len(),
    ensures
        placed_of(list, found, n).0 == Set::new(
            |k: int| 0 <= k < n && found[k] is Some,
        ).len(),
        placed_of(list, found, n).1 == Set::new(
            |k: int| 0 <= k < n && found[k] is None,
        ).len(),
        placed_of(list, found, n).2 == Set::new(
            |k: int| 0 <= k < n && found[k] is Some && list[k].by_type,
        ).len(),
        Set::new(|k: int| 0 <= k < n && found[k] is Some).finite(),
        Set::new(|k: int| 0 <= k < n && found[k] is None).finite(),
        Set::new(|k: int| 0 <= k < n && found[k] is Some && list[k].by_type).finite(),
    decreases n,
{
    let a = Set::new(|k: int| 0 <= k < n && found[k] is Some);
    let b = Set::new(|k: int| 0 <= k < n && found[k] is None);
    let c = Set::new(|k: int| 0 <= k < n && found[k] is Some && list[k].by_type);
    if n > 0 {
        everything_placed_is_counted(list, found, n - 1);
        let a0 = Set::new(|k: int| 0 <= k < n - 1 && found[k] is Some);
        let b0 = Set::new(|k: int| 0 <= k < n - 1 && found[k] is None);
        let c0 = Set::new(|k: int| 0 <= k < n - 1 && found[k] is Some && list[k].by_type);
        if found[n - 1] is Some {
            assert(a =~= a0.insert(n - 1));
            assert(b =~= b0);
        } else {
            assert(a =~= a0);
            assert(b =~= b0.insert(n - 1));
        }
        if found[n - 1] is Some && list[n - 1].by_type {
            assert(c =~= c0.insert(n - 1));
        } else {
            assert(c =~= c0);
        }
    } else {
        assert(a =~= Set::empty());
        assert(b =~= Set::empty());
        assert(c =~= Set::empty());
    }
}

/// The chunk that starts a level names the level, the checkpoint and the
/// section, in that order.
pub proof fn a_level_is_started_by_name(number: nat, checkpoint: nat, section: Seq<char>)
    ensures
        start_of(number, checkpoint, section) == "levelchanged, sectionchanged = 1, 1\nlevel("@
            + text::numeral(number) + ", "@ + text::numeral(checkpoint) + ", \""@ + section
            + "\")"@,
{
}

/// The room that an object is in is the first of the level's that bears the
/// name of the first room up from it, over a list of what hangs off what; it is
/// looked for in sixty-four objects, itself among them.
pub proof fn an_object_is_in_its_first_room<F, G>(
    gobs: Seq<Gob<F>>,
    level: &Rooms<G>,
    way: Seq<Id>,
    r: Option<usize>,
)
    requires
        0 < way.len() <= 64,
        forall|k: int| 0 <= k < way.len() ==> (#[trigger] way[k]) < gobs.len(),
        forall|k: int|
            0 <= k < way.len() - 1 ==> gobs[(#[trigger] way[k]) as int].kind != 803
                && gobs[way[k] as int].parent == Some(way[k + 1]),
        is_room_of(gobs, level, way[0], r),
    ensures
        gobs[way.last() as int].kind == 803 ==> (match r {
            Some(i) => i < level.rooms().len() && level.rooms()[i as int].name@
                == gobs[way.last() as int].name@ && forall|j: int|
                0 <= j < i ==> (#[trigger] level.rooms()[j]).name@
                    != gobs[way.last() as int].name@,
            None => forall|j: int|
                0 <= j < level.rooms().len() ==> (#[trigger] level.rooms()[j]).name@
                    != gobs[way.last() as int].name@,
        }),
        gobs[way.last() as int].kind != 803 && (gobs[way.last() as int].parent is None || way.len()
            == 64) ==> r is None,
{
    the_first_room_up_is_found(gobs, way, 64);
    if gobs[way.last() as int].kind == 803 {
        let name = gobs[way.last() as int].name@;
        assert(first_room(gobs, way[0], 64) == Some(name));
        match r {
            Some(i) => {
                crate::rooms::the_first_of_a_name_is_meant(level, name, i as int);
            },
            None => {
                let told = first_room(gobs, way[0], 64)->Some_0;
                assert(told == name);
                assert(r is None);
                assert(forall|j: int| !level.named(told, j));
                assert forall|j: int| 0 <= j < level.rooms().len() implies (
                #[trigger] level.rooms()[j]).name@ != name by {
                    let there = level.named(name, j);
                    assert(!there);
                }
            },
        }
    }
}

/// The types that a level treats apart.
pub proof fn the_types_of_a_level()
    ensures
        OBJ_ROOM == 803 && OBJ_STATICLIGHT == 802 && OBJ_AMBIENTSOUND == 1101 && OBJ_CHECKPOINT
            == 580,
{
}

/// Nothing is in a room that is not in the arena.
pub proof fn nobody_is_in_no_room<F>(gobs: Seq<Gob<F>>, id: Id, n: nat)
    requires
        id >= gobs.len(),
    ensures
        first_room(gobs, id, n) is None,
{
}

} // verus!
