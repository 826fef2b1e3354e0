//! What a level start asks for, and what its scripts drive from then on.
use crate::anim::Anims;
use crate::damage::ANIM_DIE;
use crate::input::Input;
use crate::modes::PlayModes;
use crate::names;
use crate::names::Names;
use crate::order;
use crate::rooms::{Checkpoints, Rooms};
use crate::sounds::Sounds;
use crate::spawners::Spawners;
use crate::tables;
use crate::tally;
use crate::tally::Missing;
use crate::text;
use crate::timers::Timers;
use crate::walkers::Walkers;
use vstd::prelude::*;

verus! {

/// What a level has asked for. Measures are of a type `F` that nothing here
/// computes with.
pub struct Boot<F> {
    /// The resources that a level wants loaded, and the sounds that are loaded
    /// in another way, in small letters.
    pub resources: Names<()>,
    pub hard_coded: Names<()>,
    pub rooms: Rooms<F>,
    pub checkpoints: Checkpoints<F>,
    pub input: Input,
    pub modes: PlayModes,
    pub anims: Anims,
    pub sounds: Sounds,
    /// What is frozen.
    pub stasis: Names<()>,
    /// Doors that are locked, and blowers that are off.
    pub locked: Names<()>,
    pub blower_off: Names<()>,
    pub walkers: Walkers,
    pub timers: Timers,
    pub spawners: Spawners<F>,
    /// What runs a sequence, and what ever has.
    pub scripted: Names<()>,
    pub ever_scripted: Names<()>,
    /// The functions that were called and have no behaviour, and how often.
    pub unimplemented: Names<usize>,
    /// What has been taken out of the world, and what has died, in that order.
    pub destroyed: Vec<String>,
    pub died: Vec<String>,
}

impl<F> Boot<F> {
    /// Nothing has been asked for.
    pub fn new() -> (b: Boot<F>)
        ensures
            b.resources@ == Map::<Seq<char>, ()>::empty(),
            b.hard_coded@ == Map::<Seq<char>, ()>::empty(),
            b.rooms.wf() && b.rooms.rooms().len() == 0,
            b.checkpoints.list().len() == 0,
            b.input.commands@.len() == 0 && b.input.bindings@.len() == 0 && b.input.axes == 0,
            b.modes.mode == 0 && b.modes.player is None,
            forall|mode: i64| #[trigger] b.modes.plays(mode) is None,
            b.anims.playing@ == Map::<Seq<char>, i64>::empty(),
            b.anims.looped@ == Map::<Seq<char>, i64>::empty(),
            b.anims.done@ == Map::<Seq<char>, ()>::empty(),
            b.sounds.list@.len() == 0 && b.sounds.to_play@.len() == 0,
            b.stasis@ == Map::<Seq<char>, ()>::empty(),
            b.locked@ == Map::<Seq<char>, ()>::empty(),
            b.blower_off@ == Map::<Seq<char>, ()>::empty(),
            b.walkers.gait@ == Map::<Seq<char>, i64>::empty(),
            b.walkers.state@ == Map::<Seq<char>, i64>::empty(),
            b.walkers.burst@ == Map::<Seq<char>, i64>::empty(),
            b.walkers.avoiding@ == Map::<Seq<char>, ()>::empty(),
            b.walkers.cliffs@ == Map::<Seq<char>, ()>::empty(),
            b.walkers.fighting@ == Map::<Seq<char>, ()>::empty(),
            b.walkers.fleeing@ == Map::<Seq<char>, ()>::empty(),
            b.walkers.turret@ == Map::<Seq<char>, ()>::empty(),
            b.walkers.turning@ == Map::<Seq<char>, ()>::empty(),
            b.walkers.side@ == Map::<Seq<char>, bool>::empty(),
            b.walkers.alerted@ == Map::<Seq<char>, ()>::empty(),
            b.timers.due@ == Map::<Seq<char>, i64>::empty(),
            b.spawners.list@.dom() =~= Set::<Seq<char>>::empty(),
            b.scripted@ == Map::<Seq<char>, ()>::empty(),
            b.ever_scripted@ == Map::<Seq<char>, ()>::empty(),
            b.unimplemented@ == Map::<Seq<char>, usize>::empty(),
            b.destroyed@.len() == 0,
            b.died@.len() == 0,
    {
        Boot {
            resources: Names::new(),
            hard_coded: Names::new(),
            rooms: Rooms::new(),
            checkpoints: Checkpoints::new(),
            input: Input::new(),
            modes: PlayModes::new(),
            anims: Anims::new(),
            sounds: Sounds::new(),
            stasis: Names::new(),
            locked: Names::new(),
            blower_off: Names::new(),
            walkers: Walkers::new(),
            timers: Timers::new(),
            spawners: Spawners::new(),
            scripted: Names::new(),
            ever_scripted: Names::new(),
            unimplemented: Names::new(),
            destroyed: Vec::new(),
            died: Vec::new(),
        }
    }

    /// Want a resource loaded.
    pub fn preload(&mut self, name: &str)
        ensures
            final(self).resources@ == old(self).resources@.insert(text::lowered(name@), ()),
            *final(self) == (Boot { resources: final(self).resources, ..*old(self) }),
    {
        self.resources.insert(text::lowercase(name), ());
    }

    /// Want a sound loaded that is not among the resources.
    pub fn preload_sound(&mut self, name: &str)
        ensures
            final(self).hard_coded@ == old(self).hard_coded@.insert(text::lowered(name@), ()),
            *final(self) == (Boot { hard_coded: final(self).hard_coded, ..*old(self) }),
    {
        self.hard_coded.insert(text::lowercase(name), ());
    }

    /// Let an object run a sequence, or stop it.
    pub fn enable_script(&mut self, name: &str, on: bool)
        ensures
            final(self).scripted@ == (if on {
                old(self).scripted@.insert(name@, ())
            } else {
                old(self).scripted@.remove(name@)
            }),
            final(self).ever_scripted@ == (if on {
                old(self).ever_scripted@.insert(name@, ())
            } else {
                old(self).ever_scripted@
            }),
            *final(self) == (Boot {
                scripted: final(self).scripted,
                ever_scripted: final(self).ever_scripted,
                ..*old(self)
            }),
    {
        if on {
            self.ever_scripted.insert(name.to_owned(), ());
            self.scripted.insert(name.to_owned(), ());
        } else {
            self.scripted.remove(name);
        }
    }

    /// A function that has no behaviour was called.
    pub fn record(&mut self, name: &str)
        requires
            tally::times(old(self).unimplemented@, name@) < usize::MAX,
        ensures
            final(self).unimplemented@ == old(self).unimplemented@.insert(
                name@,
                (tally::times(old(self).unimplemented@, name@) + 1) as usize,
            ),
            *final(self) == (Boot { unimplemented: final(self).unimplemented, ..*old(self) }),
    {
        tally::count(&mut self.unimplemented, name.to_owned());
    }

    /// A function of the surface is called. One that is only recorded is counted
    /// and answers at once; any other behaves as it does, and nothing is noted.
    pub fn call(&mut self, recorded: &Names<()>, name: &str) -> (r: Option<Answer>)
        requires
            tally::times(old(self).unimplemented@, name@) < usize::MAX,
        ensures
            final(self).unimplemented@ == counts_after(
                old(self).unimplemented@,
                recorded@,
                name@,
            ),
            *final(self) == (Boot { unimplemented: final(self).unimplemented, ..*old(self) }),
            r == (if recorded@.contains_key(name@) {
                Some(
                    if tally::makes_something(name@) {
                        Answer::Fresh
                    } else {
                        Answer::Nothing
                    },
                )
            } else {
                None
            }),
    {
        if !recorded.has(name) {
            return None;
        }
        self.record(name);
        if tally::makes(name) {
            Some(Answer::Fresh)
        } else {
            Some(Answer::Nothing)
        }
    }

    /// Something has died. A walker falls over where it stood: its last
    /// animation is up, and its legs and its fight are over.
    pub fn bury(&mut self, name: &str, kind: i64)
        ensures
            final(self).died@.len() == old(self).died@.len() + 1,
            final(self).died@.drop_last() == old(self).died@,
            final(self).died@.last()@ == name@,
            if tables::base_of(kind) is Some {
                &&& final(self).anims.playing@ == old(self).anims.playing@.insert(name@, ANIM_DIE)
                &&& final(self).anims.looped@ == old(self).anims.looped@
                &&& final(self).anims.done@ == old(self).anims.done@
                &&& final(self).walkers.gait@ == old(self).walkers.gait@.remove(name@)
                &&& final(self).walkers.fighting@ == old(self).walkers.fighting@.remove(name@)
                &&& final(self).walkers == (Walkers {
                    gait: final(self).walkers.gait,
                    fighting: final(self).walkers.fighting,
                    ..old(self).walkers
                })
            } else {
                final(self).anims == old(self).anims && final(self).walkers == old(self).walkers
            },
            *final(self) == (Boot {
                died: final(self).died,
                anims: final(self).anims,
                walkers: final(self).walkers,
                ..*old(self)
            }),
    {
        if tables::base_hitpoints(kind).is_some() {
            self.anims.pose(name, ANIM_DIE);
            self.walkers.bury(name);
        }
        let ghost was = self.died@;
        self.died.push(name.to_owned());
        assert(self.died@.drop_last() =~= was);
    }

    /// The functions that were called and have no behaviour here, the commonest
    /// first: the order in which they are worth doing.
    pub fn work_list(&self) -> (out: Vec<Missing>)
        ensures
            order::in_order(out@),
            out@.len() == self.unimplemented.entries().len(),
            forall|i: int|
                0 <= i < out@.len() ==> tally::stands_in(
                    self.unimplemented@,
                    #[trigger] out@[i],
                ),
            forall|i: int, j: int|
                0 <= i < j < out@.len() ==> (#[trigger] out@[i]).name@ != (
                #[trigger] out@[j]).name@,
    {
        tally::work_list(&self.unimplemented)
    }
}

/// What a function without behaviour answers.
#[derive(Clone, Copy, Debug, PartialEq, Eq, Structural)]
pub enum Answer {
    Nothing,
    /// A fresh and empty table, for what its name says makes or fetches
    /// something: the next line gives it fields.
    Fresh,
}

/// Which functions of the surface are only recorded: those without a behaviour
/// of their own, each once.
pub fn recorders(functions: &Vec<String>, behaved: &Names<()>) -> (out: Names<()>)
    ensures
        forall|name: Seq<char>| #[trigger]
            out@.contains_key(name) <==> names::lists(functions@, name) && !behaved@.contains_key(
                name,
            ),
{
    let n: usize = functions.len();
    let mut out: Names<()> = Names::new();
    let mut i: usize = 0;
    while i < n
        invariant
            n == functions@.len(),
            i <= n,
            forall|name: Seq<char>| #[trigger]
                out@.contains_key(name) <==> names::lists(functions@.take(i as int), name)
                    && !behaved@.contains_key(name),
        decreases n - i,
    {
        let f: &String = &functions[i];
        let ghost before = out@;
        if !behaved.has(f.as_str()) {
            out.insert(f.as_str().to_owned(), ());
        }
        proof {
            let (now, next) = (functions@.take(i as int), functions@.take(i + 1));
            assert forall|name: Seq<char>| names::lists(next, name) <==> names::lists(now, name)
                || f@ == name by {
                if names::lists(next, name) {
                    let k = choose|k: int| 0 <= k < next.len() && (#[trigger] next[k])@ == name;
                    if k < i {
                        assert(now[k]@ == name);
                    }
                }
                if names::lists(now, name) {
                    let k = choose|k: int| 0 <= k < now.len() && (#[trigger] now[k])@ == name;
                    assert(next[k]@ == name);
                }
                if f@ == name {
                    assert(next[i as int]@ == name);
                }
            }
            assert forall|name: Seq<char>| #[trigger]
                out@.contains_key(name) <==> names::lists(next, name) && !behaved@.contains_key(
                    name,
                ) by {
                assert(before.contains_key(name) <==> names::lists(now, name)
                    && !behaved@.contains_key(name));
            }
        }
        i += 1;
    }
    assert(functions@.take(n as int) == functions@);
    out
}

/// The counts after one call of a function of the surface.
pub open spec fn counts_after<V>(
    counts: Map<Seq<char>, usize>,
    recorded: Map<Seq<char>, V>,
    name: Seq<char>,
) -> Map<Seq<char>, usize> {
    if recorded.contains_key(name) {
        counts.insert(name, (tally::times(counts, name) + 1) as usize)
    } else {
        counts
    }
}

/// The counts after these calls, one after the other.
pub open spec fn counts_after_all<V>(
    counts: Map<Seq<char>, usize>,
    recorded: Map<Seq<char>, V>,
    calls: Seq<Seq<char>>,
) -> Map<Seq<char>, usize>
    decreases calls.len(),
{
    if calls.len() == 0 {
        counts
    } else {
        counts_after(counts_after_all(counts, recorded, calls.drop_last()), recorded, calls.last())
    }
}

/// How often a function is called.
pub open spec fn calls_of(calls: Seq<Seq<char>>, name: Seq<char>) -> int
    decreases calls.len(),
{
    if calls.len() == 0 {
        0
    } else {
        calls_of(calls.drop_last(), name) + (if calls.last() == name {
            1int
        } else {
            0
        })
    }
}

/// A function without behaviour is counted once for every call of it, and one
/// that has behaviour is never counted, whatever is called and in what order.
pub proof fn every_call_of_a_recorder_is_counted<V>(
    counts: Map<Seq<char>, usize>,
    recorded: Map<Seq<char>, V>,
    calls: Seq<Seq<char>>,
    name: Seq<char>,
)
    requires
        tally::times(counts, name) + calls_of(calls, name) <= usize::MAX,
    ensures
        0 <= calls_of(calls, name) <= calls.len(),
        recorded.contains_key(name) ==> tally::times(
            counts_after_all(counts, recorded, calls),
            name,
        ) == tally::times(counts, name) + calls_of(calls, name),
        !recorded.contains_key(name) ==> {
            &&& counts_after_all(counts, recorded, calls).contains_key(name)
                == counts.contains_key(name)
            &&& tally::times(counts_after_all(counts, recorded, calls), name) == tally::times(
                counts,
                name,
            )
        },
    decreases calls.len(),
{
    if calls.len() > 0 {
        every_call_of_a_recorder_is_counted(counts, recorded, calls.drop_last(), name);
    }
}

/// A function without behaviour that is called so many times over is counted so
/// many times more.
pub proof fn a_recorder_called_often_is_counted_often<V>(
    counts: Map<Seq<char>, usize>,
    recorded: Map<Seq<char>, V>,
    name: Seq<char>,
    k: nat,
)
    requires
        recorded.contains_key(name),
        tally::times(counts, name) + k <= usize::MAX,
    ensures
        tally::times(
            counts_after_all(counts, recorded, Seq::new(k, |i: int| name)),
            name,
        ) == tally::times(counts, name) + k,
{
    called_so_often(name, k);
    every_call_of_a_recorder_is_counted(counts, recorded, Seq::new(k, |i: int| name), name);
}

proof fn called_so_often(name: Seq<char>, k: nat)
    ensures
        calls_of(Seq::new(k, |i: int| name), name) == k,
    decreases k,
{
    if k > 0 {
        let calls = Seq::new(k, |i: int| name);
        assert(calls.drop_last() =~= Seq::new((k - 1) as nat, |i: int| name));
        called_so_often(name, (k - 1) as nat);
    }
}

/// The fog of a level: where it begins and where it is thick, its colour, and
/// whether it is on.
#[derive(Clone, Copy, Debug)]
pub struct Fog<F> {
    pub near: F,
    pub far: F,
    pub colour: [F; 3],
    pub on: bool,
}

impl<F: Copy> Fog<F> {
    /// No fog.
    pub fn new(zero: F) -> (f: Fog<F>)
        ensures
            f == (Fog { near: zero, far: zero, colour: [zero, zero, zero], on: false }),
    {
        Fog { near: zero, far: zero, colour: [zero, zero, zero], on: false }
    }

    /// Say where it begins and where it is thick.
    pub fn start_end(&mut self, near: F, far: F)
        ensures
            *final(self) == (Fog { near, far, ..*old(self) }),
    {
        self.near = near;
        self.far = far;
    }

    /// Say its colour.
    pub fn tint(&mut self, colour: [F; 3])
        ensures
            *final(self) == (Fog { colour, ..*old(self) }),
    {
        self.colour = colour;
    }

    /// Switch it on or off.
    pub fn switch(&mut self, on: bool)
        ensures
            *final(self) == (Fog { on, ..*old(self) }),
    {
        self.on = on;
    }
}

/// What a task list waits on, as it is reported: the function, whether the
/// object is ticked at all, what the task is about, and the time it has left.
pub open spec fn waiting(
    function: Option<Seq<char>>,
    ticked: bool,
    about: Seq<char>,
    left: Option<Seq<char>>,
) -> Seq<char> {
    let name = match function {
        Some(f) => f,
        None => "an anonymous function"@,
    };
    let touched = if ticked {
        name
    } else {
        name + " (untouched)"@
    };
    let full = if about.len() == 0 {
        touched
    } else {
        touched + "("@ + about + ")"@
    };
    match left {
        Some(l) => full + " ["@ + l + " left]"@,
        None => full,
    }
}

/// Say what a task list waits on.
pub fn waiting_on(function: Option<&str>, ticked: bool, about: &str, left: Option<&str>) -> (out:
    String)
    ensures
        out@ == waiting(
            crate::level::maybe(function),
            ticked,
            about@,
            crate::level::maybe(left),
        ),
{
    let mut out: String = match function {
        Some(f) => f.to_owned(),
        None => "an anonymous function".to_owned(),
    };
    if !ticked {
        out.append(" (untouched)");
    }
    if !about.is_empty() {
        out.append("(");
        out.append(about);
        out.append(")");
    }
    if let Some(l) = left {
        out.append(" [");
        out.append(l);
        out.append(" left]");
    }
    out
}

/// The name of what an animation's key makes: its maker's, and the type.
pub fn key_name(who: &str, kind: i64) -> (out: String)
    ensures
        out@ == who@ + "_key"@ + text::integral(kind as int),
{
    let mut out: String = who.to_owned();
    out.append("_key");
    let n = text::integer(kind);
    out.append(n.as_str());
    out
}

/// A call of a function without behaviour counts it once more and counts
/// nothing else; a call of any other counts nothing.
pub proof fn one_call_counts_once<V>(
    counts: Map<Seq<char>, usize>,
    recorded: Map<Seq<char>, V>,
    name: Seq<char>,
    other: Seq<char>,
)
    ensures
        recorded.contains_key(name) && counts.contains_key(name) && counts[name] < usize::MAX
            ==> counts_after(counts, recorded, name)[name] == counts[name] + 1,
        recorded.contains_key(name) && !counts.contains_key(name) ==> counts_after(
            counts,
            recorded,
            name,
        )[name] == 1,
        recorded.contains_key(name) ==> counts_after(counts, recorded, name).contains_key(name),
        !recorded.contains_key(name) ==> counts_after(counts, recorded, name) == counts,
        other != name ==> (counts_after(counts, recorded, name).contains_key(other)
            <==> counts.contains_key(other)),
        other != name && counts.contains_key(other) ==> counts_after(counts, recorded, name)[other]
            == counts[other],
{
}

/// How often a function is called is how many of the calls are of it.
pub proof fn calls_are_counted_by_place(calls: Seq<Seq<char>>, name: Seq<char>)
    ensures
        Set::new(|k: int| 0 <= k < calls.len() && calls[k] == name).finite(),
        calls_of(calls, name) == Set::new(
            |k: int| 0 <= k < calls.len() && calls[k] == name,
        ).len(),
    decreases calls.len(),
{
    let all = Set::new(|k: int| 0 <= k < calls.len() && calls[k] == name);
    if calls.len() > 0 {
        let less = calls.drop_last();
        calls_are_counted_by_place(less, name);
        let rest = Set::new(|k: int| 0 <= k < less.len() && less[k] == name);
        if calls.last() == name {
            assert(all =~= rest.insert(calls.len() - 1));
        } else {
            assert(all =~= rest);
        }
    } else {
        assert(all =~= Set::empty());
    }
}

/// What a task list waits on is told by the name of the function, or that it
/// has none; that the object is not ticked; in brackets what the task is about;
/// and in square ones the time that is left: each where there is any.
pub proof fn a_wait_is_told_in_order(f: Seq<char>, about: Seq<char>, left: Seq<char>)
    ensures
        waiting(Some(f), true, seq![], None) == f,
        waiting(None, true, seq![], None) == "an anonymous function"@,
        waiting(Some(f), false, seq![], None) == f + " (untouched)"@,
        about.len() > 0 ==> waiting(Some(f), true, about, None) == f + "("@ + about + ")"@,
        about.len() > 0 ==> waiting(Some(f), false, about, None) == f + " (untouched)"@ + "("@
            + about + ")"@,
        waiting(Some(f), true, seq![], Some(left)) == f + " ["@ + left + " left]"@,
        about.len() > 0 ==> waiting(Some(f), true, about, Some(left)) == f + "("@ + about + ")"@
            + " ["@ + left + " left]"@,
{
}

} // verus!
