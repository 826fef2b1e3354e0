//! Spawners: what puts an enemy in a room.
use crate::names;
use crate::names::Names;
use crate::world::{Gob, World};
use vstd::prelude::*;

verus! {

/// What one spawner makes, and when. Times are of a type `F` that nothing here
/// computes with.
pub struct Spawner<F> {
    /// The type of what it makes; none where it is nought.
    pub kind: i64,
    /// The waypoint that what it makes is given.
    pub waypoint: Option<String>,
    /// Four numbers for what it makes.
    pub payload: [F; 4],
    /// The time between one and the next.
    pub interval: F,
    pub room: Option<String>,
    /// How many are owed.
    pub queue: i64,
    /// The time left until the next.
    pub timer: F,
    /// It has been shut off, for good.
    pub off: bool,
}

/// What a spawner is told to make.
pub struct Definition<F> {
    pub kind: i64,
    pub waypoint: Option<String>,
    pub payload: [F; 4],
    pub interval: F,
    pub room: Option<String>,
}

/// A waypoint with no name is none.
pub open spec fn proper(waypoint: Option<String>) -> Option<String> {
    match waypoint {
        Some(w) => if w@.len() == 0 {
            None
        } else {
            waypoint
        },
        None => None,
    }
}

/// The spawner that a definition makes of one: it owes what it owed, waits as
/// it waited, and stays off if it is.
pub open spec fn defined<F>(was: Option<Spawner<F>>, d: Definition<F>, zero: F) -> Spawner<F> {
    Spawner {
        kind: d.kind,
        waypoint: proper(d.waypoint),
        payload: d.payload,
        interval: d.interval,
        room: d.room,
        queue: match was {
            Some(s) => s.queue,
            None => 0,
        },
        timer: match was {
            Some(s) => s.timer,
            None => zero,
        },
        off: match was {
            Some(s) => s.off,
            None => false,
        },
    }
}

/// Owing so many more. A spawner that is off owes nothing, and one that owed
/// nothing makes the first at once.
pub open spec fn owing<F>(s: Spawner<F>, n: i64, zero: F) -> Spawner<F> {
    if s.off {
        s
    } else {
        Spawner {
            queue: (s.queue + n) as i64,
            timer: if s.queue == 0 {
                zero
            } else {
                s.timer
            },
            ..s
        }
    }
}

/// A tick of one spawner: `less` is its timer less the time of the tick, and
/// `up` says that this has run out. The timer runs only while something is
/// owed.
pub open spec fn ticked<F>(s: Spawner<F>, less: F, up: bool) -> Spawner<F> {
    if s.queue <= 0 {
        s
    } else if up {
        Spawner { queue: (s.queue - 1) as i64, timer: s.interval, ..s }
    } else {
        Spawner { timer: less, ..s }
    }
}

/// Does a spawner make something on a tick?
pub open spec fn makes<F>(s: Spawner<F>, up: bool) -> bool {
    s.queue > 0 && up
}

/// The names of those of the first `n` spawners that make something on a tick.
pub open spec fn ready_of<F>(s: Seq<(String, Spawner<F>)>, after: Seq<(F, bool)>, n: int) -> Seq<
    Seq<char>,
>
    decreases n,
{
    if n <= 0 {
        seq![]
    } else {
        let rest = ready_of(s, after, n - 1);
        if makes(s[n - 1].1, after[n - 1].1) {
            rest.push(s[n - 1].0@)
        } else {
            rest
        }
    }
}

/// The spawners of a level, by name.
pub struct Spawners<F> {
    pub list: Names<Spawner<F>>,
}

impl<F> Spawners<F> {
    pub open spec fn find(&self, name: Seq<char>) -> Option<Spawner<F>> {
        if self.list@.contains_key(name) {
            Some(self.list@[name])
        } else {
            None
        }
    }

    /// No spawners.
    pub fn new() -> (s: Spawners<F>)
        ensures
            s.list@ == Map::<Seq<char>, Spawner<F>>::empty(),
    {
        Spawners { list: Names::new() }
    }

    /// Tell a spawner what it makes. This writes the definition and nothing
    /// else.
    pub fn define(&mut self, name: String, d: Definition<F>, zero: F)
        ensures
            final(self).list@ == old(self).list@.insert(
                name@,
                defined(old(self).find(name@), d, zero),
            ),
    {
        let was = self.list.take(name.as_str());
        let blank: bool = match &d.waypoint {
            Some(w) => w.as_str().is_empty(),
            None => false,
        };
        let waypoint = if blank {
            None
        } else {
            d.waypoint
        };
        let (queue, timer, off) = match was {
            Some(s) => (s.queue, s.timer, s.off),
            None => (0i64, zero, false),
        };
        let s = Spawner {
            kind: d.kind,
            waypoint,
            payload: d.payload,
            interval: d.interval,
            room: d.room,
            queue,
            timer,
            off,
        };
        self.list.insert(name, s);
        assert(self.list@ =~= old(self).list@.insert(
            name@,
            defined(old(self).find(name@), d, zero),
        ));
    }

    /// Owe so many more of what a spawner makes. A name that is no spawner
    /// owes nothing.
    pub fn queue(&mut self, name: &str, n: i64, zero: F)
        requires
            old(self).find(name@) matches Some(s) ==> s.off || i64::MIN <= s.queue + n <= i64::MAX,
        ensures
            match old(self).find(name@) {
                Some(s) => final(self).list@ == old(self).list@.insert(name@, owing(s, n, zero)),
                None => final(self).list@ == old(self).list@,
            },
    {
        match self.list.take(name) {
            None => {
                assert(self.list@ =~= old(self).list@);
            },
            Some(s) => {
                let mut s = s;
                if !s.off {
                    if s.queue == 0 {
                        s.timer = zero;
                    }
                    s.queue = s.queue + n;
                }
                self.list.insert(name.to_owned(), s);
                assert(self.list@ =~= old(self).list@.insert(name@, s));
            },
        }
    }

    /// Shut a spawner off. It owes nothing, and never will again.
    pub fn shut_off(&mut self, name: &str)
        ensures
            match old(self).find(name@) {
                Some(s) => final(self).list@ == old(self).list@.insert(
                    name@,
                    Spawner { queue: 0, off: true, ..s },
                ),
                None => final(self).list@ == old(self).list@,
            },
    {
        match self.list.take(name) {
            None => {
                assert(self.list@ =~= old(self).list@);
            },
            Some(s) => {
                let mut s = s;
                s.queue = 0;
                s.off = true;
                self.list.insert(name.to_owned(), s);
                assert(self.list@ =~= old(self).list@.insert(name@, s));
            },
        }
    }

    /// A tick. `after` holds for each spawner, in their order, its timer less
    /// the time of the tick and whether that has run out. The names of those
    /// that make something come back in their order.
    pub fn tick(&mut self, after: &Vec<(F, bool)>) -> (ready: Vec<String>) where F: Copy
        requires
            after@.len() == old(self).list.entries().len(),
        ensures
            names::texts(ready@) == ready_of(
                old(self).list.entries(),
                after@,
                after@.len() as int,
            ),
            final(self).list.entries().len() == old(self).list.entries().len(),
            forall|i: int|
                0 <= i < after@.len() ==> (#[trigger] final(self).list.entries()[i]) == (
                    old(self).list.entries()[i].0,
                    ticked(old(self).list.entries()[i].1, after@[i].0, after@[i].1),
                ),
    {
        let all = self.list.take_all();
        let ghost was = all@;
        let n: usize = all.len();
        let mut from: Vec<(String, Spawner<F>)> = all;
        let mut to: Vec<(String, Spawner<F>)> = Vec::new();
        let mut ready: Vec<String> = Vec::new();
        let mut i: usize = 0;
        assert(was.skip(0) == was);
        assert(names::texts(ready@) =~= ready_of(was, after@, 0));
        while from.len() > 0
            invariant
                n == was.len(),
                was.len() == after@.len(),
                names::ascending(was),
                i + from@.len() == was.len(),
                from@ == was.skip(i as int),
                to@.len() == i,
                forall|j: int|
                    0 <= j < i ==> (#[trigger] to@[j]) == (
                        was[j].0,
                        ticked(was[j].1, after@[j].0, after@[j].1),
                    ),
                names::texts(ready@) == ready_of(was, after@, i as int),
            decreases from@.len(),
        {
            let (name, s) = from.remove(0);
            proof {
                assert(was.skip(i as int)[0] == was[i as int]);
                assert(was.skip(i as int).remove(0) =~= was.skip(i + 1));
            }
            let mut s = s;
            if s.queue > 0 {
                let (less, up) = after[i];
                if up {
                    s.queue = s.queue - 1;
                    s.timer = s.interval;
                    let ghost before = ready@;
                    ready.push(name.clone());
                    assert(names::texts(ready@) =~= names::texts(before).push(name@));
                } else {
                    s.timer = less;
                }
            }
            to.push((name, s));
            i += 1;
        }
        proof {
            assert forall|a: int, b: int| 0 <= a < b < to@.len() implies names::earlier(
                (#[trigger] to@[a]).0@,
                (#[trigger] to@[b]).0@,
            ) by {
                assert(names::earlier(was[a].0@, was[b].0@));
            }
        }
        self.list = Names::of(to);
        ready
    }

    /// What a spawner makes, where it has been told: its type, its waypoint and
    /// its numbers.
    pub fn makes_of(&self, name: &str) -> (r: Option<&Spawner<F>>)
        ensures
            match self.find(name@) {
                Some(s) => if s.kind != 0 {
                    r == Some(&s)
                } else {
                    r is None
                },
                None => r is None,
            },
    {
        match self.list.get(name) {
            Some(s) => if s.kind != 0 {
                Some(s)
            } else {
                None
            },
            None => None,
        }
    }
}

/// What a spawner makes is named after it.
pub fn spawn_name(spawner: &str) -> (name: String)
    ensures
        name@ == spawner@ + "_spawn"@,
{
    let mut name: String = spawner.to_owned();
    name.append("_spawn");
    name
}

/// Are two texts the same, or both missing?
pub open spec fn same_text(a: Option<String>, b: Option<String>) -> bool {
    match (a, b) {
        (Some(a), Some(b)) => a@ == b@,
        (None, None) => true,
        _ => false,
    }
}

/// The object that a name leads to.
pub open spec fn led_to<F>(w: &World<F>, name: Seq<char>) -> Option<Gob<F>> {
    if w.names().contains_key(name) && w.names()[name] < w.gobs().len() {
        Some(w.gobs()[w.names()[name] as int])
    } else {
        None
    }
}

/// What a spawner makes: an object named after it, of the type that it was told,
/// which wears the waypoint, carries the four numbers, and stands and faces as
/// the spawner does. A spawner that is nowhere makes it at the origin, unturned.
pub fn spawned<F: Copy>(s: &Spawners<F>, w: &World<F>, spawner: &str, zero: F, one: F) -> (r: Option<
    Gob<F>,
>)
    ensures
        r is Some <==> (s.find(spawner@) matches Some(d) && d.kind != 0),
        r matches Some(g) ==> {
            let d = s.find(spawner@)->Some_0;
            &&& g.name@ == spawner@ + "_spawn"@
            &&& g.kind == d.kind
            &&& same_text(g.resource, d.waypoint)
            &&& g.payload == d.payload
            &&& g.otherwise_blank(zero)
            &&& match led_to(w, spawner@) {
                Some(m) => g.position == m.position && g.rotation == m.rotation,
                None => g.position@ == seq![zero, zero, zero] && g.rotation@ == seq![
                    one,
                    zero,
                    zero,
                    zero,
                ],
            }
        },
{
    let d = match s.makes_of(spawner) {
        Some(d) => d,
        None => {
            return None;
        },
    };
    let mut g: Gob<F> = Gob::blank(zero);
    g.name = spawn_name(spawner);
    g.kind = d.kind;
    g.resource = match &d.waypoint {
        Some(t) => Some(t.as_str().to_owned()),
        None => None,
    };
    g.payload = d.payload;
    g.rotation = [one, zero, zero, zero];
    assert(g.rotation@ =~= seq![one, zero, zero, zero]);
    if let Some(id) = w.find(spawner) {
        if let Some(m) = w.get(id) {
            g.position = m.position;
            g.rotation = m.rotation;
        }
    }
    Some(g)
}

/// A spawner that has been shut off stays off: whatever it is told, it owes
/// nothing and makes nothing.
pub proof fn what_is_shut_off_stays_off<F>(
    s: Spawner<F>,
    d: Definition<F>,
    n: i64,
    zero: F,
    less: F,
    up: bool,
)
    requires
        s.off,
        s.queue == 0,
    ensures
        owing(s, n, zero).off && owing(s, n, zero).queue == 0,
        defined(Some(s), d, zero).off && defined(Some(s), d, zero).queue == 0,
        ticked(s, less, up).off && ticked(s, less, up).queue == 0,
        !makes(s, up),
{
}

/// What is owed is made, one at a time: a spawner that owes so many has made
/// exactly one of them on a tick whose timer has run out, and an idle one saves
/// nothing up.
pub proof fn one_at_a_time<F>(s: Spawner<F>, less: F, up: bool)
    ensures
        makes(s, up) ==> ticked(s, less, up).queue == s.queue - 1 && ticked(s, less, up).timer
            == s.interval,
        !makes(s, up) ==> ticked(s, less, up).queue == s.queue,
        s.queue <= 0 ==> ticked(s, less, up) == s,
{
}

/// A definition says what a spawner makes, and of what it owes, how long it
/// waits and whether it is off it says nothing; a new spawner owes nothing, and
/// is on. A waypoint without a name is none.
pub proof fn a_definition_is_written_whole<F>(was: Spawner<F>, d: Definition<F>, zero: F)
    ensures
        ({
            let s = defined(Some(was), d, zero);
            let n = defined(None, d, zero);
            &&& s.kind == d.kind && s.payload == d.payload && s.interval == d.interval && s.room
                == d.room
            &&& s.queue == was.queue && s.timer == was.timer && s.off == was.off
            &&& n.kind == d.kind && n.payload == d.payload && n.interval == d.interval && n.room
                == d.room
            &&& n.queue == 0 && n.timer == zero && !n.off
            &&& d.waypoint matches Some(w) ==> w@.len() > 0 ==> s.waypoint == d.waypoint
                && n.waypoint == d.waypoint
            &&& d.waypoint matches Some(w) ==> w@.len() == 0 ==> s.waypoint is None
                && n.waypoint is None
            &&& d.waypoint is None ==> s.waypoint is None && n.waypoint is None
        }),
{
}

/// A spawner that is on owes what it owed and so many more; one that owed
/// nothing makes the first at once, and one that owed something goes on
/// waiting. One that is off is as it was.
pub proof fn what_is_asked_for_is_owed<F>(s: Spawner<F>, n: i64, zero: F)
    requires
        i64::MIN <= s.queue + n <= i64::MAX,
    ensures
        s.off ==> owing(s, n, zero) == s,
        !s.off ==> owing(s, n, zero).queue == s.queue + n,
        !s.off && s.queue == 0 ==> owing(s, n, zero).timer == zero,
        !s.off && s.queue != 0 ==> owing(s, n, zero).timer == s.timer,
        owing(s, n, zero) == (Spawner {
            queue: owing(s, n, zero).queue,
            timer: owing(s, n, zero).timer,
            ..s
        }),
{
}

/// On a tick a spawner that owes something and whose time is up makes one, owes
/// one fewer and waits its interval; one whose time is not up waits on; and one
/// that owes nothing is as it was.
pub proof fn a_tick_makes_what_is_owed<F>(s: Spawner<F>, less: F, up: bool)
    ensures
        s.queue > 0 && up ==> makes(s, up) && ticked(s, less, up) == (Spawner {
            queue: (s.queue - 1) as i64,
            timer: s.interval,
            ..s
        }),
        s.queue > 0 && !up ==> !makes(s, up) && ticked(s, less, up) == (Spawner {
            timer: less,
            ..s
        }),
        s.queue <= 0 ==> !makes(s, up) && ticked(s, less, up) == s,
{
}

/// One more spawner is ready exactly if it owes something and its time is up;
/// then its name comes behind the others.
pub proof fn every_spawner_is_asked<F>(s: Seq<(String, Spawner<F>)>, after: Seq<(F, bool)>, n: int)
    requires
        0 <= n < s.len(),
    ensures
        ready_of(s, after, 0) == Seq::<Seq<char>>::empty(),
        s[n].1.queue > 0 && after[n].1 ==> ready_of(s, after, n + 1) == ready_of(s, after, n).push(
            s[n].0@,
        ),
        s[n].1.queue <= 0 || !after[n].1 ==> ready_of(s, after, n + 1) == ready_of(s, after, n),
{
}

/// A name leads to the object that the world has under it, where it has one
/// there.
pub proof fn a_spawner_stands_where_its_name_leads<F>(w: &World<F>, name: Seq<char>)
    ensures
        w.names().contains_key(name) && w.names()[name] < w.gobs().len() ==> led_to(w, name) == Some(
            w.gobs()[w.names()[name] as int],
        ),
        w.names().contains_key(name) && w.names()[name] >= w.gobs().len() ==> led_to(w, name)
            is None,
        !w.names().contains_key(name) ==> led_to(w, name) is None,
{
}

/// Two texts are the same where both are there and read alike, or neither is.
pub proof fn texts_are_the_same_or_both_missing(a: String, b: String)
    ensures
        same_text(Some(a), Some(b)) <==> a@ == b@,
        same_text(None, None),
        !same_text(Some(a), None) && !same_text(None, Some(b)),
{
}

} // verus!
