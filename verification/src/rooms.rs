//! The rooms of a level, and which of them a point is in.
//!
//! The corners of the boxes are measures, so that a point can be compared with
//! them.
use crate::text;
use vstd::prelude::*;

verus! {

/// A room, as a scene graph builds one.
pub struct Room<F> {
    pub name: String,
    /// The rooms that are drawn from this one.
    pub visible: Vec<usize>,
    pub music: Option<F>,
    /// The reverberation, one of twenty-six.
    pub env: Option<F>,
    /// The section that is streamed in.
    pub load: Option<F>,
    pub checkpoint: Option<F>,
    /// The lowest corner, and behind it the highest.
    pub bbox: Option<[i64; 6]>,
}

/// What a script sets of a room.
#[derive(Clone, Copy, Debug, PartialEq, Eq, Structural)]
pub enum Setting {
    Music,
    Env,
    Load,
    Checkpoint,
}

/// Is a point in a box? The walls belong to it.
pub open spec fn within(b: [i64; 6], p: [i64; 3]) -> bool {
    &&& b@[0] <= p@[0] <= b@[3]
    &&& b@[1] <= p@[1] <= b@[4]
    &&& b@[2] <= p@[2] <= b@[5]
}

fn is_within(b: &[i64; 6], p: &[i64; 3]) -> (r: bool)
    ensures
        r == within(*b, *p),
{
    b[0] <= p[0] && p[0] <= b[3] && b[1] <= p[1] && p[1] <= b[4] && b[2] <= p[2] && p[2] <= b[5]
}

/// The rooms of a level: a room is known by its place in the list.
pub struct Rooms<F> {
    rooms: Vec<Room<F>>,
}

impl<F> Rooms<F> {
    pub closed spec fn rooms(&self) -> Seq<Room<F>> {
        self.rooms@
    }

    /// Does the room at `i` have this name?
    pub open spec fn named(&self, name: Seq<char>, i: int) -> bool {
        0 <= i < self.rooms().len() && self.rooms()[i].name@ == name
    }

    /// Is `i` the first room of this name?
    pub open spec fn first_named(&self, name: Seq<char>, i: int) -> bool {
        self.named(name, i) && forall|j: int| 0 <= j < i ==> !self.named(name, j)
    }

    /// The lists of what is drawn hold rooms, and no room twice; and no two
    /// rooms have one name.
    pub open spec fn wf(&self) -> bool {
        &&& forall|i: int, j: int|
            0 <= i < j < self.rooms().len() ==> (#[trigger] self.rooms()[i]).name@
                != (#[trigger] self.rooms()[j]).name@
        &&& forall|i: int|
            0 <= i < self.rooms().len() ==> (#[trigger] self.rooms()[i]).visible@.no_duplicates()
        &&& forall|i: int, k: int|
            0 <= i < self.rooms().len() && 0 <= k < self.rooms()[i].visible@.len() ==> (
            #[trigger] self.rooms()[i].visible@[k]) < self.rooms().len()
    }

    /// No rooms.
    pub fn new() -> (r: Rooms<F>)
        ensures
            r.wf(),
            r.rooms().len() == 0,
    {
        Rooms { rooms: Vec::new() }
    }

    pub fn len(&self) -> (n: usize)
        ensures
            n == self.rooms().len(),
    {
        self.rooms.len()
    }

    /// The room at a place of the list.
    pub fn get(&self, i: usize) -> (r: Option<&Room<F>>)
        ensures
            match r {
                Some(room) => i < self.rooms().len() && *room == self.rooms()[i as int],
                None => i >= self.rooms().len(),
            },
    {
        if i < self.rooms.len() {
            Some(&self.rooms[i])
        } else {
            None
        }
    }

    /// The number of the room of this name.
    pub fn number(&self, name: &String) -> (r: Option<usize>)
        ensures
            match r {
                Some(i) => self.first_named(name@, i as int),
                None => forall|i: int| !self.named(name@, i),
            },
    {
        let n: usize = self.rooms.len();
        let mut i: usize = 0;
        while i < n
            invariant
                n == self.rooms@.len(),
                i <= n,
                forall|j: int| 0 <= j < i ==> !self.named(name@, j),
            decreases n - i,
        {
            if self.rooms[i].name == *name {
                return Some(i);
            }
            i += 1;
        }
        None
    }

    /// Add a room, and say its number. A name that is there already keeps its
    /// room as it is.
    pub fn add(&mut self, name: String) -> (i: usize)
        requires
            old(self).wf(),
        ensures
            final(self).wf(),
            final(self).named(name@, i as int),
            if exists|j: int| old(self).named(name@, j) {
                &&& final(self).rooms() == old(self).rooms()
                &&& old(self).first_named(name@, i as int)
            } else {
                &&& i == old(self).rooms().len()
                &&& final(self).rooms().len() == i + 1
                &&& final(self).rooms().take(i as int) == old(self).rooms()
                &&& ({
                    let r = final(self).rooms()[i as int];
                    &&& r.name == name
                    &&& r.visible@.len() == 0
                    &&& r.music is None && r.env is None && r.load is None && r.checkpoint is None
                    &&& r.bbox is None
                })
            },
    {
        if let Some(i) = self.number(&name) {
            return i;
        }
        let ghost was = self.rooms@;
        let room = Room {
            name,
            visible: Vec::new(),
            music: None,
            env: None,
            load: None,
            checkpoint: None,
            bbox: None,
        };
        let i: usize = self.rooms.len();
        assert(forall|j: int| !self.named(name@, j));
        assert forall|j: int| 0 <= j < was.len() implies (#[trigger] was[j]).name@ != name@ by {
            assert(!self.named(name@, j));
        }
        self.rooms.push(room);
        assert(self.rooms@.take(i as int) =~= was);
        proof {
            assert forall|a: int, b: int|
                0 <= a < b < self.rooms@.len() implies (#[trigger] self.rooms@[a]).name@ != (
            #[trigger] self.rooms@[b]).name@ by {
                assert(self.rooms@[a] == was[a]);
                if b < i {
                    assert(self.rooms@[b] == was[b]);
                }
            }
            assert forall|a: int, k: int|
                0 <= a < self.rooms@.len() && 0 <= k < self.rooms@[a].visible@.len() implies (
            #[trigger] self.rooms@[a].visible@[k]) < self.rooms@.len() by {
                if a < i {
                    assert(self.rooms@[a] == was[a]);
                }
            }
        }
        i
    }

    /// The room `room` draws the room of this name. A name or a number that is
    /// no room changes nothing, and neither does a room that is drawn already.
    pub fn add_visible(&mut self, room: usize, name: &String)
        requires
            old(self).wf(),
        ensures
            final(self).wf(),
            ({
                let there = exists|t: int| old(self).first_named(name@, t);
                let t = choose|t: int| old(self).first_named(name@, t);
                if room < old(self).rooms().len() && there && !old(
                    self,
                ).rooms()[room as int].visible@.contains(t as usize) {
                    &&& final(self).rooms().len() == old(self).rooms().len()
                    &&& forall|i: int|
                        0 <= i < old(self).rooms().len() && i != room ==> final(self).rooms()[i]
                            == old(self).rooms()[i]
                    &&& final(self).rooms()[room as int].visible@ == old(
                        self,
                    ).rooms()[room as int].visible@.push(t as usize)
                    &&& final(self).rooms()[room as int] == (Room {
                        visible: final(self).rooms()[room as int].visible,
                        ..old(self).rooms()[room as int]
                    })
                } else {
                    final(self).rooms() == old(self).rooms()
                }
            }),
    {
        let t: usize = match self.number(name) {
            Some(t) => t,
            None => {
                return;
            },
        };
        proof {
            let c = choose|c: int| self.first_named(name@, c);
            assert(self.first_named(name@, t as int));
            if c < t {
                assert(!self.named(name@, c));
            } else if t < c {
                assert(!self.named(name@, t as int));
            }
        }
        if room >= self.rooms.len() {
            return;
        }
        let n: usize = self.rooms[room].visible.len();
        let mut k: usize = 0;
        while k < n
            invariant
                room < self.rooms@.len(),
                n == self.rooms@[room as int].visible@.len(),
                k <= n,
                forall|j: int| 0 <= j < k ==> self.rooms@[room as int].visible@[j] != t,
                self.rooms@ == old(self).rooms@,
                self.wf(),
                self.first_named(name@, t as int),
                t == choose|c: int| old(self).first_named(name@, c),
            decreases n - k,
        {
            if self.rooms[room].visible[k] == t {
                assert(self.rooms@[room as int].visible@.contains(t));
                return;
            }
            k += 1;
        }
        let ghost was = self.rooms@;
        self.rooms[room].visible.push(t);
        proof {
            assert forall|i: int| 0 <= i < self.rooms@.len() && i != room implies (
            #[trigger] self.rooms@[i]) == was[i] by {}
            assert(self.rooms@[room as int].visible@ == was[room as int].visible@.push(t));
            assert forall|a: int, b: int|
                0 <= a < b < self.rooms@.len() implies (#[trigger] self.rooms@[a]).name@ != (
            #[trigger] self.rooms@[b]).name@ by {
                assert(self.rooms@[a].name == was[a].name);
                assert(self.rooms@[b].name == was[b].name);
            }
            assert forall|i: int| 0 <= i < self.rooms@.len() implies (
            #[trigger] self.rooms@[i]).visible@.no_duplicates() by {
                assert(was[i].visible@.no_duplicates());
            }
            assert forall|i: int, k: int|
                0 <= i < self.rooms@.len() && 0 <= k < self.rooms@[i].visible@.len() implies (
            #[trigger] self.rooms@[i].visible@[k]) < self.rooms@.len() by {
                if i == room && k == n {
                } else {
                    assert(was[i].visible@[k] == self.rooms@[i].visible@[k]);
                }
            }
        }
    }

    /// Set one thing of a room. A number that is no room changes nothing.
    pub fn set(&mut self, room: usize, which: Setting, value: Option<F>)
        requires
            old(self).wf(),
        ensures
            final(self).wf(),
            if room < old(self).rooms().len() {
                let r = old(self).rooms()[room as int];
                final(self).rooms() == old(self).rooms().update(
                    room as int,
                    match which {
                        Setting::Music => Room { music: value, ..r },
                        Setting::Env => Room { env: value, ..r },
                        Setting::Load => Room { load: value, ..r },
                        Setting::Checkpoint => Room { checkpoint: value, ..r },
                    },
                )
            } else {
                final(self).rooms() == old(self).rooms()
            },
    {
        if room >= self.rooms.len() {
            return;
        }
        let ghost was = self.rooms@;
        match which {
            Setting::Music => {
                self.rooms[room].music = value;
            },
            Setting::Env => {
                self.rooms[room].env = value;
            },
            Setting::Load => {
                self.rooms[room].load = value;
            },
            Setting::Checkpoint => {
                self.rooms[room].checkpoint = value;
            },
        }
        proof {
            self.keeps_its_shape(was);
        }
    }

    /// Set the box of a room. A number that is no room changes nothing.
    pub fn set_box(&mut self, room: usize, bbox: [i64; 6])
        requires
            old(self).wf(),
        ensures
            final(self).wf(),
            if room < old(self).rooms().len() {
                final(self).rooms() == old(self).rooms().update(
                    room as int,
                    Room { bbox: Some(bbox), ..old(self).rooms()[room as int] },
                )
            } else {
                final(self).rooms() == old(self).rooms()
            },
    {
        if room >= self.rooms.len() {
            return;
        }
        let ghost was = self.rooms@;
        self.rooms[room].bbox = Some(bbox);
        proof {
            self.keeps_its_shape(was);
        }
    }

    proof fn keeps_its_shape(&self, was: Seq<Room<F>>)
        requires
            was.len() == self.rooms@.len(),
            forall|i: int|
                0 <= i < was.len() ==> (#[trigger] self.rooms@[i]).name == was[i].name
                    && self.rooms@[i].visible == was[i].visible,
            forall|i: int, j: int|
                0 <= i < j < was.len() ==> (#[trigger] was[i]).name@ != (#[trigger] was[j]).name@,
            forall|i: int| 0 <= i < was.len() ==> (#[trigger] was[i]).visible@.no_duplicates(),
            forall|i: int, k: int|
                0 <= i < was.len() && 0 <= k < was[i].visible@.len() ==> (
                #[trigger] was[i].visible@[k]) < was.len(),
        ensures
            self.wf(),
    {
        assert forall|i: int, j: int| 0 <= i < j < self.rooms@.len() implies (
        #[trigger] self.rooms@[i]).name@ != (#[trigger] self.rooms@[j]).name@ by {
            assert(was[i].name@ != was[j].name@);
        }
        assert forall|i: int| 0 <= i < self.rooms@.len() implies (
        #[trigger] self.rooms@[i]).visible@.no_duplicates() by {
            assert(was[i].visible@.no_duplicates());
        }
        assert forall|i: int, k: int|
            0 <= i < self.rooms@.len() && 0 <= k < self.rooms@[i].visible@.len() implies (
        #[trigger] self.rooms@[i].visible@[k]) < self.rooms@.len() by {
            assert(was[i].visible@[k] < was.len());
        }
    }
}

/// The boxes of the rooms, for telling which a point is in, and what hangs on
/// being there.
pub struct Visibility<F> {
    pub names: Vec<String>,
    pub boxes: Vec<Option<[i64; 6]>>,
    pub visible: Vec<Vec<usize>>,
    pub env: Vec<Option<F>>,
    pub music: Vec<Option<F>>,
}

/// Which of the first `n` boxes hold a point, in their order.
pub open spec fn holding(boxes: Seq<Option<[i64; 6]>>, p: [i64; 3], n: int) -> Seq<usize>
    decreases n,
{
    if n <= 0 {
        seq![]
    } else {
        let rest = holding(boxes, p, n - 1);
        match boxes[n - 1] {
            Some(b) => if within(b, p) {
                rest.push((n - 1) as usize)
            } else {
                rest
            },
            None => rest,
        }
    }
}

/// The names of the first `n` of these rooms, with commas between them.
pub open spec fn told(names: Seq<String>, rooms: Seq<usize>, n: int) -> Seq<char>
    decreases n,
{
    if n <= 0 {
        seq![]
    } else if n == 1 {
        names[rooms[0] as int]@
    } else {
        told(names, rooms, n - 1) + ", "@ + names[rooms[n - 1] as int]@
    }
}

impl<F> Visibility<F> {
    /// There is a box, or the lack of one, for every room.
    pub open spec fn wf(&self) -> bool {
        self.boxes@.len() == self.names@.len()
    }

    /// Which rooms a point is in. Boxes do overlap, so this is a list, and the
    /// first is taken.
    pub fn at(&self, p: &[i64; 3]) -> (out: Vec<usize>)
        requires
            self.wf(),
        ensures
            out@ == holding(self.boxes@, *p, self.boxes@.len() as int),
    {
        let n: usize = self.boxes.len();
        let mut out: Vec<usize> = Vec::new();
        let mut i: usize = 0;
        while i < n
            invariant
                n == self.boxes@.len(),
                i <= n,
                out@ == holding(self.boxes@, *p, i as int),
            decreases n - i,
        {
            if let Some(b) = &self.boxes[i] {
                if is_within(b, p) {
                    out.push(i);
                }
            }
            i += 1;
        }
        out
    }

    /// Where a point is, in words, and how many rooms are drawn from there.
    pub fn whereabouts(&self, p: &[i64; 3]) -> (r: (String, usize))
        requires
            self.wf(),
            self.visible@.len() == self.names@.len(),
        ensures
            ({
                let here = holding(self.boxes@, *p, self.boxes@.len() as int);
                let names = told(self.names@, here, here.len() as int);
                &&& r.0@ == (if names.len() == 0 {
                    "no room"@
                } else {
                    names
                })
                &&& r.1 == (if here.len() == 0 {
                    0
                } else {
                    self.visible@[here[0] as int]@.len()
                })
            }),
    {
        let here = self.at(p);
        let n: usize = here.len();
        let all: usize = self.boxes.len();
        proof {
            assert forall|k: int| 0 <= k < n implies #[trigger] here@[k] < self.boxes@.len() by {
                assert(here@.contains(here@[k]));
                a_room_is_listed_iff_it_holds_the_point(self.boxes@, *p, all as int, here@[k]);
            }
        }
        if n == 0 {
            return ("no room".to_owned(), 0);
        }
        let mut s: String = self.names[here[0]].as_str().to_owned();
        let mut i: usize = 1;
        while i < n
            invariant
                n == here@.len(),
                1 <= i <= n,
                self.wf(),
                forall|k: int| 0 <= k < n ==> #[trigger] here@[k] < self.boxes@.len(),
                s@ == told(self.names@, here@, i as int),
            decreases n - i,
        {
            s.append(", ");
            s.append(self.names[here[i]].as_str());
            i += 1;
        }
        let drawn: usize = self.visible[here[0]].len();
        if text::chars_of(s.as_str()).len() == 0 {
            return ("no room".to_owned(), drawn);
        }
        (s, drawn)
    }
}

/// The rooms a point is in are those whose box holds it, in their order.
pub proof fn a_room_is_listed_iff_it_holds_the_point(
    boxes: Seq<Option<[i64; 6]>>,
    p: [i64; 3],
    n: int,
    i: usize,
)
    requires
        0 <= n <= boxes.len() <= usize::MAX,
    ensures
        holding(boxes, p, n).contains(i) <==> i < n && (boxes[i as int] matches Some(b) && within(
            b,
            p,
        )),
        forall|a: int, b: int|
            0 <= a < b < holding(boxes, p, n).len() ==> holding(boxes, p, n)[a] < holding(
                boxes,
                p,
                n,
            )[b],
    decreases n,
{
    if n > 0 {
        a_room_is_listed_iff_it_holds_the_point(boxes, p, n - 1, i);
        let rest = holding(boxes, p, n - 1);
        let all = holding(boxes, p, n);
        if all != rest {
            assert(all == rest.push((n - 1) as usize));
            assert(all[rest.len() as int] == (n - 1) as usize);
            assert forall|a: int| 0 <= a < rest.len() implies all[a] == rest[a] by {}
            if rest.contains(i) {
                let k = choose|k: int| 0 <= k < rest.len() && rest[k] == i;
                assert(all[k] == i);
            }
            assert forall|a: int| 0 <= a < rest.len() implies #[trigger] rest[a] < n - 1 by {
                a_room_is_listed_iff_it_holds_the_point(boxes, p, n - 1, rest[a]);
                assert(rest.contains(rest[a]));
            }
            if all.contains(i) {
                let k = choose|k: int| 0 <= k < all.len() && all[k] == i;
                if k < rest.len() {
                    assert(rest[k] == i);
                }
            }
        }
    }
}

/// The room that a walk through the level comes to: what changes when the room
/// under the player was `was` and is `here`.
#[derive(Clone, Copy, Debug, PartialEq, Eq, Structural)]
pub enum Entry {
    /// The same room, or still none.
    Same,
    /// Out of every room.
    Left,
    /// Into this one.
    Entered(usize),
}

/// Is a room entered? Only a change counts.
pub fn entry(was: Option<usize>, here: Option<usize>) -> (e: Entry)
    ensures
        e == (if was == here {
            Entry::Same
        } else {
            match here {
                Some(i) => Entry::Entered(i),
                None => Entry::Left,
            }
        }),
{
    match here {
        Some(i) => match was {
            Some(j) => if i == j {
                Entry::Same
            } else {
                Entry::Entered(i)
            },
            None => Entry::Entered(i),
        },
        None => match was {
            Some(_) => Entry::Left,
            None => Entry::Same,
        },
    }
}

// ---------------------------------------------------------------------------
// Checkpoints and streaming
// ---------------------------------------------------------------------------
/// A place where a level can be started.
pub struct Checkpoint<F> {
    pub index: i64,
    /// Where it is, to stand there and to be compared.
    pub position: [F; 3],
    pub place: [i64; 3],
    pub facing: F,
    pub section: Option<F>,
    /// The rooms that are gone once this checkpoint has been reached.
    pub delete: Vec<String>,
    /// The checkpoint before it in the streaming.
    pub prev: Option<usize>,
}

/// The checkpoints of a level, in the order they were set.
pub struct Checkpoints<F> {
    list: Vec<Checkpoint<F>>,
}

/// The rooms on the lists of those of the first `n` checkpoints that are not
/// past `upto`.
pub open spec fn doomed<F>(list: Seq<Checkpoint<F>>, upto: i64, n: int) -> Seq<String>
    decreases n,
{
    if n <= 0 {
        seq![]
    } else {
        let rest = doomed(list, upto, n - 1);
        if list[n - 1].index <= upto {
            rest + list[n - 1].delete@
        } else {
            rest
        }
    }
}

impl<F> Checkpoints<F> {
    pub closed spec fn list(&self) -> Seq<Checkpoint<F>> {
        self.list@
    }

    /// Is `i` the first checkpoint of this number?
    pub open spec fn first(&self, index: i64, i: int) -> bool {
        &&& 0 <= i < self.list().len()
        &&& self.list()[i].index == index
        &&& forall|j: int| 0 <= j < i ==> (#[trigger] self.list()[j]).index != index
    }

    pub fn new() -> (c: Checkpoints<F>)
        ensures
            c.list().len() == 0,
    {
        Checkpoints { list: Vec::new() }
    }

    /// Set a checkpoint. It has no rooms to delete yet and none before it.
    pub fn set(
        &mut self,
        index: i64,
        position: [F; 3],
        place: [i64; 3],
        facing: F,
        section: Option<F>,
    )
        ensures
            final(self).list().len() == old(self).list().len() + 1,
            final(self).list().drop_last() == old(self).list(),
            ({
                let c = final(self).list().last();
                &&& c.index == index && c.position == position && c.place == place
                &&& c.facing == facing && c.section == section
                &&& c.delete@.len() == 0 && c.prev is None
            }),
    {
        let c = Checkpoint {
            index,
            position,
            place,
            facing,
            section,
            delete: Vec::new(),
            prev: None,
        };
        let ghost was = self.list@;
        self.list.push(c);
        assert(self.list@.drop_last() =~= was);
    }

    /// How many checkpoints there are.
    pub fn len(&self) -> (n: usize)
        ensures
            n == self.list().len(),
    {
        self.list.len()
    }

    /// Where the checkpoint of this number stands in the list.
    pub fn find(&self, index: i64) -> (r: Option<usize>)
        ensures
            match r {
                Some(i) => self.first(index, i as int),
                None => forall|i: int|
                    0 <= i < self.list().len() ==> (#[trigger] self.list()[i]).index != index,
            },
    {
        let n: usize = self.list.len();
        let mut i: usize = 0;
        while i < n
            invariant
                n == self.list@.len(),
                i <= n,
                forall|j: int| 0 <= j < i ==> (#[trigger] self.list@[j]).index != index,
            decreases n - i,
        {
            if self.list[i].index == index {
                return Some(i);
            }
            i += 1;
        }
        None
    }

    pub fn get(&self, i: usize) -> (r: Option<&Checkpoint<F>>)
        ensures
            match r {
                Some(c) => i < self.list().len() && *c == self.list()[i as int],
                None => i >= self.list().len(),
            },
    {
        if i < self.list.len() {
            Some(&self.list[i])
        } else {
            None
        }
    }

    /// The room goes once the checkpoint of this number has been reached.
    pub fn delete_room(&mut self, index: i64, room: String)
        ensures
            match old(self).place_of(index) {
                Some(i) => {
                    &&& final(self).list().len() == old(self).list().len()
                    &&& forall|j: int|
                        0 <= j < old(self).list().len() && j != i ==> final(self).list()[j] == old(
                            self,
                        ).list()[j]
                    &&& final(self).list()[i].delete@ == old(self).list()[i].delete@.push(room)
                    &&& final(self).list()[i] == (Checkpoint {
                        delete: final(self).list()[i].delete,
                        ..old(self).list()[i]
                    })
                },
                None => final(self).list() == old(self).list(),
            },
    {
        if let Some(i) = self.find(index) {
            proof {
                self.first_is_the_one(index, i as int);
            }
            let ghost was = self.list@;
            self.list[i].delete.push(room);
            assert forall|j: int| 0 <= j < was.len() && j != i implies (#[trigger] self.list@[j])
                == was[j] by {}
        }
    }

    /// The checkpoint before this one. A number below nought is none.
    pub fn set_prev(&mut self, index: i64, prev: Option<usize>)
        ensures
            match old(self).place_of(index) {
                Some(i) => final(self).list() == old(self).list().update(
                    i,
                    Checkpoint { prev, ..old(self).list()[i] },
                ),
                None => final(self).list() == old(self).list(),
            },
    {
        if let Some(i) = self.find(index) {
            proof {
                self.first_is_the_one(index, i as int);
            }
            let ghost was = self.list@;
            self.list[i].prev = prev;
            assert(self.list@ =~= was.update(i as int, Checkpoint { prev, ..was[i as int] }));
        }
    }

    /// Where the first checkpoint of this number stands.
    pub open spec fn place_of(&self, index: i64) -> Option<int> {
        if exists|i: int| self.first(index, i) {
            Some(choose|i: int| self.first(index, i))
        } else {
            None
        }
    }

    /// There is only one first.
    pub proof fn first_is_the_one(&self, index: i64, i: int)
        requires
            self.first(index, i),
        ensures
            self.place_of(index) == Some(i),
    {
        let j = choose|j: int| self.first(index, j);
        assert(self.first(index, j));
        if i < j {
            assert(self.list()[i].index != index);
        } else if j < i {
            assert(self.list()[j].index != index);
        }
    }

    /// The rooms that are gone when a level is started at a checkpoint: those
    /// on the lists of every checkpoint up to and including it.
    pub fn gone_at(&self, checkpoint: i64) -> (out: Vec<String>)
        ensures
            out@.len() == doomed(self.list(), checkpoint, self.list().len() as int).len(),
            forall|i: int|
                0 <= i < out@.len() ==> (#[trigger] out@[i])@ == doomed(
                    self.list(),
                    checkpoint,
                    self.list().len() as int,
                )[i]@,
    {
        let n: usize = self.list.len();
        let mut out: Vec<String> = Vec::new();
        let mut i: usize = 0;
        while i < n
            invariant
                n == self.list@.len(),
                i <= n,
                out@.len() == doomed(self.list@, checkpoint, i as int).len(),
                forall|j: int|
                    0 <= j < out@.len() ==> (#[trigger] out@[j])@ == doomed(
                        self.list@,
                        checkpoint,
                        i as int,
                    )[j]@,
            decreases n - i,
        {
            if self.list[i].index <= checkpoint {
                let m: usize = self.list[i].delete.len();
                let mut k: usize = 0;
                let ghost base = doomed(self.list@, checkpoint, i as int);
                while k < m
                    invariant
                        i < n,
                        n == self.list@.len(),
                        m == self.list@[i as int].delete@.len(),
                        k <= m,
                        base == doomed(self.list@, checkpoint, i as int),
                        out@.len() == base.len() + k,
                        forall|j: int|
                            0 <= j < out@.len() ==> (#[trigger] out@[j])@ == (base
                                + self.list@[i as int].delete@)[j]@,
                    decreases m - k,
                {
                    out.push(self.list[i].delete[k].clone());
                    k += 1;
                }
            }
            i += 1;
        }
        out
    }
}

/// The names of the rooms that hold a point.
pub fn rooms_around<F>(rooms: &Rooms<F>, p: &[i64; 3]) -> (out: Vec<String>)
    ensures
        out@.len() == around(rooms.rooms(), *p, rooms.rooms().len() as int).len(),
        forall|i: int|
            0 <= i < out@.len() ==> (#[trigger] out@[i])@ == around(
                rooms.rooms(),
                *p,
                rooms.rooms().len() as int,
            )[i],
{
    let n: usize = rooms.rooms.len();
    let mut out: Vec<String> = Vec::new();
    let mut i: usize = 0;
    while i < n
        invariant
            n == rooms.rooms@.len(),
            i <= n,
            out@.len() == around(rooms.rooms@, *p, i as int).len(),
            forall|j: int|
                0 <= j < out@.len() ==> (#[trigger] out@[j])@ == around(
                    rooms.rooms@,
                    *p,
                    i as int,
                )[j],
        decreases n - i,
    {
        if let Some(b) = &rooms.rooms[i].bbox {
            if is_within(b, p) {
                out.push(rooms.rooms[i].name.clone());
            }
        }
        i += 1;
    }
    out
}

/// The names of those of the first `n` rooms that hold a point.
pub open spec fn around<F>(rooms: Seq<Room<F>>, p: [i64; 3], n: int) -> Seq<Seq<char>>
    decreases n,
{
    if n <= 0 {
        seq![]
    } else {
        let rest = around(rooms, p, n - 1);
        match rooms[n - 1].bbox {
            Some(b) => if within(b, p) {
                rest.push(rooms[n - 1].name@)
            } else {
                rest
            },
            None => rest,
        }
    }
}

/// A point is in a box exactly if it is between the two corners, or level with
/// one, along each of the three axes.
pub proof fn a_box_holds_what_is_between_its_corners(b: [i64; 6], p: [i64; 3])
    ensures
        within(b, p) <==> (forall|k: int| 0 <= k < 3 ==> b@[k] <= #[trigger] p@[k] <= b@[k + 3]),
{
    if forall|k: int| 0 <= k < 3 ==> b@[k] <= #[trigger] p@[k] <= b@[k + 3] {
        assert(b@[0] <= p@[0] <= b@[3]);
        assert(b@[1] <= p@[1] <= b@[4]);
        assert(b@[2] <= p@[2] <= b@[5]);
    }
}

/// One more room is around a point exactly if it has a box that the point is
/// in; then its number, or its name, comes behind the others.
pub proof fn every_box_is_asked<F>(
    boxes: Seq<Option<[i64; 6]>>,
    rooms: Seq<Room<F>>,
    p: [i64; 3],
    n: int,
)
    ensures
        holding(boxes, p, 0) == Seq::<usize>::empty(),
        around(rooms, p, 0) == Seq::<Seq<char>>::empty(),
        0 <= n < boxes.len() <= usize::MAX ==> holding(boxes, p, n + 1) == (if boxes[n] is Some && (
        forall|k: int|
            0 <= k < 3 ==> boxes[n]->Some_0@[k] <= #[trigger] p@[k] <= boxes[n]->Some_0@[k + 3]) {
            holding(boxes, p, n).push(n as usize)
        } else {
            holding(boxes, p, n)
        }),
        0 <= n < rooms.len() ==> around(rooms, p, n + 1) == (if rooms[n].bbox is Some && (forall|
            k: int,
        |
            0 <= k < 3 ==> rooms[n].bbox->Some_0@[k] <= #[trigger] p@[k]
                <= rooms[n].bbox->Some_0@[k + 3]) {
            around(rooms, p, n).push(rooms[n].name@)
        } else {
            around(rooms, p, n)
        }),
{
    if 0 <= n < boxes.len() && boxes[n] is Some {
        a_box_holds_what_is_between_its_corners(boxes[n]->Some_0, p);
    }
    if 0 <= n < rooms.len() && rooms[n].bbox is Some {
        a_box_holds_what_is_between_its_corners(rooms[n].bbox->Some_0, p);
    }
}

/// The rooms that somebody is in are told by name, in their order, with a comma
/// and a space between each two.
pub proof fn rooms_are_told_with_commas(names: Seq<String>, rooms: Seq<usize>, n: int)
    requires
        n >= 1,
    ensures
        told(names, rooms, 0) == Seq::<char>::empty(),
        told(names, rooms, 1) == names[rooms[0] as int]@,
        told(names, rooms, n + 1) == told(names, rooms, n) + ", "@ + names[rooms[n] as int]@,
{
}

/// The rooms that are gone at a checkpoint are those on the lists of all
/// checkpoints up to it, itself among them, one list behind the other; and of
/// no other.
pub proof fn every_list_up_to_the_checkpoint_counts<F>(
    list: Seq<Checkpoint<F>>,
    upto: i64,
    n: int,
    i: int,
    k: int,
)
    requires
        0 <= n < list.len(),
    ensures
        doomed(list, upto, 0) == Seq::<String>::empty(),
        list[n].index <= upto ==> doomed(list, upto, n + 1) == doomed(list, upto, n)
            + list[n].delete@,
        list[n].index > upto ==> doomed(list, upto, n + 1) == doomed(list, upto, n),
        0 <= i <= n && list[i].index <= upto && 0 <= k < list[i].delete@.len() ==> doomed(
            list,
            upto,
            n + 1,
        ).contains(list[i].delete@[k]),
    decreases n,
{
    if 0 <= i <= n && list[i].index <= upto && 0 <= k < list[i].delete@.len() {
        let all = doomed(list, upto, n + 1);
        let rest = doomed(list, upto, n);
        if i == n {
            assert(all[rest.len() + k] == list[i].delete@[k]);
        } else {
            every_list_up_to_the_checkpoint_counts(list, upto, n - 1, i, k);
            let at = choose|at: int| 0 <= at < rest.len() && rest[at] == list[i].delete@[k];
            assert(all[at] == list[i].delete@[k]);
        }
    }
}

/// A number leads to the first checkpoint that has it, and one that none has
/// leads nowhere.
pub proof fn the_first_of_a_number_is_meant<F>(c: &Checkpoints<F>, index: i64, i: int)
    ensures
        0 <= i < c.list().len() && c.list()[i].index == index && (forall|j: int|
            0 <= j < i ==> (#[trigger] c.list()[j]).index != index) ==> c.place_of(index) == Some(i),
        (forall|j: int| 0 <= j < c.list().len() ==> (#[trigger] c.list()[j]).index != index)
            ==> c.place_of(index) is None,
{
    if 0 <= i < c.list().len() && c.list()[i].index == index && (forall|j: int|
        0 <= j < i ==> (#[trigger] c.list()[j]).index != index) {
        c.first_is_the_one(index, i);
    }
}

/// A name leads to the first room that has it.
pub proof fn the_first_of_a_name_is_meant<F>(r: &Rooms<F>, name: Seq<char>, i: int)
    ensures
        r.first_named(name, i) <==> {
            &&& 0 <= i < r.rooms().len()
            &&& r.rooms()[i].name@ == name
            &&& forall|j: int| 0 <= j < i ==> (#[trigger] r.rooms()[j]).name@ != name
        },
{
    if r.first_named(name, i) {
        assert forall|j: int| 0 <= j < i implies (#[trigger] r.rooms()[j]).name@ != name by {
            assert(!r.named(name, j));
        }
    }
}

} // verus!
