//! What the scripts hang on objects: sounds, and the parts of their models.
use crate::names;
use vstd::prelude::*;

verus! {

/// A sound on an object.
pub struct GobSound {
    pub gob: String,
    pub sound: String,
    pub flag: i64,
    /// How often it has been played.
    pub played: usize,
}

/// The sounds, by the handles that the scripts hold, and what is to be played.
pub struct Sounds {
    pub list: Vec<GobSound>,
    /// Handles that were played since somebody last listened.
    pub to_play: Vec<usize>,
}

impl Sounds {
    /// Silence.
    pub fn new() -> (s: Sounds)
        ensures
            s.list@.len() == 0,
            s.to_play@.len() == 0,
    {
        Sounds { list: Vec::new(), to_play: Vec::new() }
    }

    /// Hang a sound on an object. The handle comes back.
    pub fn add_sound(&mut self, gob: String, sound: String, flag: i64) -> (handle: usize)
        ensures
            handle == old(self).list@.len(),
            final(self).list@ == old(self).list@.push(GobSound { gob, sound, flag, played: 0 }),
            final(self).to_play == old(self).to_play,
    {
        let handle: usize = self.list.len();
        self.list.push(GobSound { gob, sound, flag, played: 0 });
        handle
    }

    /// Play a sound. A handle that is none plays nothing.
    pub fn play(&mut self, handle: usize)
        requires
            handle < old(self).list@.len() ==> old(self).list@[handle as int].played < usize::MAX,
        ensures
            if handle < old(self).list@.len() {
                let s = old(self).list@[handle as int];
                &&& final(self).list@ == old(self).list@.update(
                    handle as int,
                    GobSound { played: (s.played + 1) as usize, ..s },
                )
                &&& final(self).to_play@ == old(self).to_play@.push(handle)
            } else {
                &&& final(self).list == old(self).list
                &&& final(self).to_play == old(self).to_play
            },
    {
        if handle < self.list.len() {
            let ghost was = self.list@;
            let n: usize = self.list[handle].played;
            self.list[handle].played = n + 1;
            self.to_play.push(handle);
            assert(self.list@ =~= was.update(
                handle as int,
                GobSound { played: (n + 1) as usize, ..was[handle as int] },
            ));
        }
    }

    /// Hand over what is to be played, in the order it was asked for.
    pub fn listen(&mut self) -> (out: Vec<usize>)
        ensures
            out@ == old(self).to_play@,
            final(self).to_play@.len() == 0,
            final(self).list == old(self).list,
    {
        let mut out: Vec<usize> = Vec::new();
        std::mem::swap(&mut out, &mut self.to_play);
        out
    }
}

/// A part of a model, by the name that a script asked for, and whether it has
/// been hidden or made intangible.
pub struct Part {
    pub name: String,
    pub hidden: bool,
    pub intangible: bool,
}

/// What is set of a part.
#[derive(Clone, Copy, Debug, PartialEq, Eq, Structural)]
pub enum Sense {
    /// Whether it is seen.
    Sight,
    /// Whether it can be bumped into.
    Touch,
}

/// The parts of an object's model that the scripts have asked about. A part is
/// known by its place in the list.
pub struct Parts {
    list: Vec<Part>,
}

impl Parts {
    pub closed spec fn list(&self) -> Seq<Part> {
        self.list@
    }

    /// Is `i` the place of the part of this name?
    pub open spec fn is_part(&self, name: Seq<char>, i: int) -> bool {
        0 <= i < self.list().len() && self.list()[i].name@ == name
    }

    /// No part is listed twice.
    pub open spec fn wf(&self) -> bool {
        forall|i: int, j: int|
            0 <= i < j < self.list().len() ==> (#[trigger] self.list()[i]).name@ != (
            #[trigger] self.list()[j]).name@
    }

    pub fn new() -> (p: Parts)
        ensures
            p.wf(),
            p.list().len() == 0,
    {
        Parts { list: Vec::new() }
    }

    /// The handle of a part. Asking again gives the same handle.
    pub fn intern(&mut self, name: String) -> (handle: usize)
        requires
            old(self).wf(),
        ensures
            final(self).wf(),
            final(self).is_part(name@, handle as int),
            if exists|i: int| old(self).is_part(name@, i) {
                final(self).list() == old(self).list()
            } else {
                &&& handle == old(self).list().len()
                &&& final(self).list() == old(self).list().push(
                    Part { name, hidden: false, intangible: false },
                )
            },
    {
        let n: usize = self.list.len();
        let mut i: usize = 0;
        while i < n
            invariant
                n == self.list@.len(),
                i <= n,
                self.list@ == old(self).list@,
                self.wf(),
                forall|j: int| 0 <= j < i ==> !self.is_part(name@, j),
            decreases n - i,
        {
            if self.list[i].name == name {
                assert(old(self).is_part(name@, i as int));
                return i;
            }
            i += 1;
        }
        let ghost was = self.list@;
        assert forall|j: int| 0 <= j < was.len() implies (#[trigger] was[j]).name@ != name@ by {
            assert(!old(self).is_part(name@, j));
        }
        self.list.push(Part { name, hidden: false, intangible: false });
        proof {
            assert forall|a: int, b: int| 0 <= a < b < self.list@.len() implies (
            #[trigger] self.list@[a]).name@ != (#[trigger] self.list@[b]).name@ by {
                assert(self.list@[a] == was[a]);
            }
        }
        n
    }

    /// The name that a handle stands for. Below nought there is none.
    pub fn part_name(&self, handle: i64) -> (r: Option<&str>)
        ensures
            match r {
                Some(n) => 0 <= handle < self.list().len() && n@ == self.list()[handle as int].name@,
                None => !(0 <= handle < self.list().len()),
            },
    {
        if handle < 0 || handle as u64 >= self.list.len() as u64 {
            return None;
        }
        Some(self.list[handle as usize].name.as_str())
    }

    /// Show a part or hide it, or make it solid or not. A handle that is none
    /// changes nothing.
    pub fn set(&mut self, handle: usize, which: Sense, on: bool)
        requires
            old(self).wf(),
        ensures
            final(self).wf(),
            if handle < old(self).list().len() {
                let p = old(self).list()[handle as int];
                final(self).list() == old(self).list().update(
                    handle as int,
                    match which {
                        Sense::Sight => Part { hidden: !on, ..p },
                        Sense::Touch => Part { intangible: !on, ..p },
                    },
                )
            } else {
                final(self).list() == old(self).list()
            },
    {
        if handle >= self.list.len() {
            return;
        }
        let ghost was = self.list@;
        match which {
            Sense::Sight => {
                self.list[handle].hidden = !on;
            },
            Sense::Touch => {
                self.list[handle].intangible = !on;
            },
        }
        proof {
            assert forall|a: int, b: int| 0 <= a < b < self.list@.len() implies (
            #[trigger] self.list@[a]).name@ != (#[trigger] self.list@[b]).name@ by {
                assert(self.list@[a].name == was[a].name);
                assert(self.list@[b].name == was[b].name);
            }
        }
    }

    /// The names of what is hidden, or of what is intangible.
    pub fn off(&self, which: Sense) -> (out: Vec<String>)
        ensures
            names::texts(out@) == off_of(self.list(), which, self.list().len() as int),
    {
        let n: usize = self.list.len();
        let mut out: Vec<String> = Vec::new();
        let mut i: usize = 0;
        assert(names::texts(out@) =~= off_of(self.list@, which, 0));
        while i < n
            invariant
                n == self.list@.len(),
                i <= n,
                names::texts(out@) == off_of(self.list@, which, i as int),
            decreases n - i,
        {
            let gone: bool = match which {
                Sense::Sight => self.list[i].hidden,
                Sense::Touch => self.list[i].intangible,
            };
            if gone {
                let ghost before = out@;
                out.push(self.list[i].name.clone());
                assert(names::texts(out@) =~= names::texts(before).push(
                    self.list@[i as int].name@,
                ));
            }
            i += 1;
        }
        out
    }
}

/// The names of those of the first `n` parts that are hidden, or intangible.
pub open spec fn off_of(list: Seq<Part>, which: Sense, n: int) -> Seq<Seq<char>>
    decreases n,
{
    if n <= 0 {
        seq![]
    } else {
        let rest = off_of(list, which, n - 1);
        let p = list[n - 1];
        if match which {
            Sense::Sight => p.hidden,
            Sense::Touch => p.intangible,
        } {
            rest.push(p.name@)
        } else {
            rest
        }
    }
}

/// One more part is off exactly if it has been hidden, or made intangible,
/// whichever was asked for; then its name comes behind the others.
pub proof fn every_part_is_asked(list: Seq<Part>, n: int)
    requires
        0 <= n < list.len(),
    ensures
        off_of(list, Sense::Sight, 0) == Seq::<Seq<char>>::empty(),
        off_of(list, Sense::Touch, 0) == Seq::<Seq<char>>::empty(),
        list[n].hidden ==> off_of(list, Sense::Sight, n + 1) == off_of(list, Sense::Sight, n).push(
            list[n].name@,
        ),
        !list[n].hidden ==> off_of(list, Sense::Sight, n + 1) == off_of(list, Sense::Sight, n),
        list[n].intangible ==> off_of(list, Sense::Touch, n + 1) == off_of(
            list,
            Sense::Touch,
            n,
        ).push(list[n].name@),
        !list[n].intangible ==> off_of(list, Sense::Touch, n + 1) == off_of(list, Sense::Touch, n),
{
}

/// A part is known by the place where its name stands.
pub proof fn a_part_stands_where_its_name_does(p: &Parts, name: Seq<char>, i: int)
    ensures
        p.is_part(name, i) <==> 0 <= i < p.list().len() && p.list()[i].name@ == name,
        p.wf() && 0 <= i < p.list().len() ==> forall|j: int|
            p.is_part(p.list()[i].name@, j) ==> j == i,
{
    if p.wf() && 0 <= i < p.list().len() {
        assert forall|j: int| p.is_part(p.list()[i].name@, j) implies j == i by {
            if j < i {
                assert(p.list()[j].name@ != p.list()[i].name@);
            } else if i < j {
                assert(p.list()[i].name@ != p.list()[j].name@);
            }
        }
    }
}

} // verus!
