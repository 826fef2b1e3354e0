//! A register of names: what is known of each, in the order of the names.
use crate::order;
use vstd::prelude::*;

verus! {

/// Does `a` come before `b`, and are they two?
pub open spec fn earlier(a: Seq<char>, b: Seq<char>) -> bool {
    a != b && order::text_precedes(a, b)
}

/// Every name comes before those behind it, so that none stands twice.
pub open spec fn ascending<V>(s: Seq<(String, V)>) -> bool {
    forall|i: int, j: int|
        0 <= i < j < s.len() ==> earlier((#[trigger] s[i]).0@, (#[trigger] s[j]).0@)
}

/// Does the name `k` stand at `i`?
pub open spec fn stands<V>(s: Seq<(String, V)>, k: Seq<char>, i: int) -> bool {
    0 <= i < s.len() && s[i].0@ == k
}

/// A list of names, each with what is known of it, as a map.
pub open spec fn map_of<V>(s: Seq<(String, V)>) -> Map<Seq<char>, V> {
    Map::new(
        |k: Seq<char>| exists|i: int| stands(s, k, i),
        |k: Seq<char>| s[choose|i: int| stands(s, k, i)].1,
    )
}

/// The names of a list.
pub open spec fn names_in<V>(s: Seq<(String, V)>) -> Seq<Seq<char>> {
    s.map_values(|e: (String, V)| e.0@)
}

/// The texts of a list of strings.
pub open spec fn texts(s: Seq<String>) -> Seq<Seq<char>> {
    s.map_values(|x: String| x@)
}

/// Does a list of strings hold this text?
pub open spec fn lists(s: Seq<String>, k: Seq<char>) -> bool {
    exists|i: int| 0 <= i < s.len() && (#[trigger] s[i])@ == k
}

/// In an ascending list what stands beside a name is what the map has for it.
pub proof fn map_at<V>(s: Seq<(String, V)>, i: int)
    requires
        ascending(s),
        0 <= i < s.len(),
    ensures
        map_of(s).contains_key(s[i].0@),
        map_of(s)[s[i].0@] == s[i].1,
{
    let k = s[i].0@;
    assert(stands(s, k, i));
    let j = choose|j: int| stands(s, k, j);
    assert(stands(s, k, j));
    if i < j {
        assert(earlier(s[i].0@, s[j].0@));
    } else if j < i {
        assert(earlier(s[j].0@, s[i].0@));
    }
}

/// A name that the map has stands somewhere in the list.
pub proof fn map_where<V>(s: Seq<(String, V)>, k: Seq<char>) -> (i: int)
    requires
        ascending(s),
        map_of(s).contains_key(k),
    ensures
        stands(s, k, i),
        map_of(s)[k] == s[i].1,
{
    let i = choose|i: int| stands(s, k, i);
    map_at(s, i);
    i
}

proof fn inserted<V>(s: Seq<(String, V)>, at: int, e: (String, V))
    requires
        ascending(s),
        0 <= at <= s.len(),
        forall|i: int| 0 <= i < at ==> earlier((#[trigger] s[i]).0@, e.0@),
        forall|i: int| at <= i < s.len() ==> earlier(e.0@, (#[trigger] s[i]).0@),
    ensures
        ascending(s.insert(at, e)),
        map_of(s.insert(at, e)) =~= map_of(s).insert(e.0@, e.1),
{
    let t = s.insert(at, e);
    assert forall|i: int, j: int| 0 <= i < j < t.len() implies earlier(
        (#[trigger] t[i]).0@,
        (#[trigger] t[j]).0@,
    ) by {
        let a = if i < at {
            i
        } else {
            i - 1
        };
        let b = if j < at {
            j
        } else {
            j - 1
        };
        if i != at {
            assert(t[i] == s[a]);
        }
        if j != at {
            assert(t[j] == s[b]);
        }
    }
    assert forall|k: Seq<char>| map_of(t).contains_key(k) == map_of(s).insert(
        e.0@,
        e.1,
    ).contains_key(k) by {
        if map_of(t).contains_key(k) {
            let i = map_where(t, k);
            if i < at {
                map_at(s, i);
            } else if i > at {
                map_at(s, i - 1);
            }
        }
        if map_of(s).contains_key(k) {
            let i = map_where(s, k);
            if i < at {
                assert(t[i] == s[i]);
                map_at(t, i);
            } else {
                assert(t[i + 1] == s[i]);
                map_at(t, i + 1);
            }
        }
        map_at(t, at);
    }
    assert forall|k: Seq<char>| map_of(t).contains_key(k) implies map_of(t)[k] == map_of(s).insert(
        e.0@,
        e.1,
    )[k] by {
        let i = map_where(t, k);
        if i < at {
            map_at(s, i);
        } else if i > at {
            map_at(s, i - 1);
        }
    }
}

proof fn replaced<V>(s: Seq<(String, V)>, at: int, e: (String, V))
    requires
        ascending(s),
        0 <= at < s.len(),
        s[at].0@ == e.0@,
    ensures
        ascending(s.update(at, e)),
        map_of(s.update(at, e)) =~= map_of(s).insert(e.0@, e.1),
        names_in(s.update(at, e)) =~= names_in(s),
{
    let t = s.update(at, e);
    assert forall|i: int| 0 <= i < t.len() implies (#[trigger] t[i]).0@ == s[i].0@ by {}
    assert forall|k: Seq<char>| map_of(t).contains_key(k) == map_of(s).insert(
        e.0@,
        e.1,
    ).contains_key(k) by {
        if map_of(t).contains_key(k) {
            let i = map_where(t, k);
            map_at(s, i);
        }
        if map_of(s).contains_key(k) {
            let i = map_where(s, k);
            map_at(t, i);
        }
        map_at(t, at);
    }
    assert forall|k: Seq<char>| map_of(t).contains_key(k) implies map_of(t)[k] == map_of(s).insert(
        e.0@,
        e.1,
    )[k] by {
        let i = map_where(t, k);
        map_at(s, i);
        map_at(t, i);
        if i != at {
            if i < at {
                assert(earlier(s[i].0@, s[at].0@));
            } else {
                assert(earlier(s[at].0@, s[i].0@));
            }
        }
    }
}

proof fn dropped<V>(s: Seq<(String, V)>, at: int)
    requires
        ascending(s),
        0 <= at < s.len(),
    ensures
        ascending(s.remove(at)),
        map_of(s.remove(at)) =~= map_of(s).remove(s[at].0@),
{
    let t = s.remove(at);
    let gone = s[at].0@;
    assert forall|i: int, j: int| 0 <= i < j < t.len() implies earlier(
        (#[trigger] t[i]).0@,
        (#[trigger] t[j]).0@,
    ) by {
        let a = if i < at {
            i
        } else {
            i + 1
        };
        let b = if j < at {
            j
        } else {
            j + 1
        };
        assert(t[i] == s[a]);
        assert(t[j] == s[b]);
    }
    assert forall|k: Seq<char>| map_of(t).contains_key(k) == map_of(s).remove(gone).contains_key(
        k,
    ) by {
        if map_of(t).contains_key(k) {
            let i = map_where(t, k);
            let a = if i < at {
                i
            } else {
                i + 1
            };
            assert(t[i] == s[a]);
            map_at(s, a);
            if a < at {
                assert(earlier(s[a].0@, s[at].0@));
            } else {
                assert(earlier(s[at].0@, s[a].0@));
            }
        }
        if map_of(s).remove(gone).contains_key(k) {
            let i = map_where(s, k);
            if i < at {
                assert(t[i] == s[i]);
                map_at(t, i);
            } else {
                assert(i != at);
                assert(t[i - 1] == s[i]);
                map_at(t, i - 1);
            }
        }
    }
    assert forall|k: Seq<char>| map_of(t).contains_key(k) implies map_of(t)[k] == map_of(s).remove(
        gone,
    )[k] by {
        let i = map_where(t, k);
        let a = if i < at {
            i
        } else {
            i + 1
        };
        assert(t[i] == s[a]);
        map_at(s, a);
    }
}

/// What is known of names.
pub struct Names<V> {
    entries: Vec<(String, V)>,
}

impl<V> View for Names<V> {
    type V = Map<Seq<char>, V>;

    open spec fn view(&self) -> Map<Seq<char>, V> {
        map_of(self.entries())
    }
}

impl<V> Names<V> {
    /// The names and what is known of each, in their order.
    pub closed spec fn entries(&self) -> Seq<(String, V)> {
        self.entries@
    }

    #[verifier::type_invariant]
    spec fn in_order(self) -> bool {
        ascending(self.entries@)
    }

    /// Nothing is known of any name.
    pub fn new() -> (n: Names<V>)
        ensures
            n.entries() == Seq::<(String, V)>::empty(),
            n@ == Map::<Seq<char>, V>::empty(),
    {
        let n = Names { entries: Vec::new() };
        assert(n@ =~= Map::<Seq<char>, V>::empty());
        n
    }

    /// The register that lists these.
    pub fn of(entries: Vec<(String, V)>) -> (n: Names<V>)
        requires
            ascending(entries@),
        ensures
            n.entries() == entries@,
    {
        Names { entries }
    }

    /// Hand the whole list over, and be left with nothing.
    pub fn take_all(&mut self) -> (all: Vec<(String, V)>)
        ensures
            all@ == old(self).entries(),
            ascending(all@),
            final(self)@ == Map::<Seq<char>, V>::empty(),
    {
        proof {
            use_type_invariant(&*self);
        }
        let mut all: Vec<(String, V)> = Vec::new();
        std::mem::swap(&mut all, &mut self.entries);
        assert(self@ =~= Map::<Seq<char>, V>::empty());
        all
    }

    /// How many names there are.
    pub fn len(&self) -> (n: usize)
        ensures
            n == self.entries().len(),
            ascending(self.entries()),
    {
        proof {
            use_type_invariant(self);
        }
        self.entries.len()
    }

    /// The name at `i`, and what is known of it.
    pub fn at(&self, i: usize) -> (r: (&str, &V))
        requires
            i < self.entries().len(),
        ensures
            r.0@ == self.entries()[i as int].0@,
            *r.1 == self.entries()[i as int].1,
            self@.contains_key(r.0@),
            self@[r.0@] == *r.1,
    {
        proof {
            use_type_invariant(self);
            map_at(self.entries@, i as int);
        }
        (self.entries[i].0.as_str(), &self.entries[i].1)
    }

    /// Where a name stands, or where it would.
    fn place(&self, name: &str) -> (r: (usize, bool))
        ensures
            r.0 <= self.entries@.len(),
            forall|i: int| 0 <= i < r.0 ==> earlier((#[trigger] self.entries@[i]).0@, name@),
            r.1 ==> r.0 < self.entries@.len() && self.entries@[r.0 as int].0@ == name@,
            !r.1 ==> forall|i: int|
                r.0 <= i < self.entries@.len() ==> earlier(name@, (#[trigger] self.entries@[i]).0@),
            r.1 == self@.contains_key(name@),
            r.1 ==> self@[name@] == self.entries@[r.0 as int].1,
    {
        proof {
            use_type_invariant(self);
        }
        let n: usize = self.entries.len();
        let mut at: usize = 0;
        while at < n
            invariant
                n == self.entries@.len(),
                at <= n,
                ascending(self.entries@),
                forall|i: int| 0 <= i < at ==> earlier((#[trigger] self.entries@[i]).0@, name@),
            decreases n - at,
        {
            if !order::text_before(self.entries[at].0.as_str(), name) {
                proof {
                    let here = self.entries@[at as int].0@;
                    order::text_total(here, name@);
                    order::text_total(name@, name@);
                    assert forall|i: int| at <= i < n implies earlier(
                        name@,
                        (#[trigger] self.entries@[i]).0@,
                    ) by {
                        let there = self.entries@[i].0@;
                        if i > at {
                            assert(earlier(here, there));
                            order::text_transitive(name@, here, there);
                            if there == name@ {
                                assert(order::text_precedes(here, name@));
                            }
                        }
                    }
                    if self@.contains_key(name@) {
                        let i = map_where(self.entries@, name@);
                        assert(i >= at);
                        assert(earlier(name@, self.entries@[i].0@));
                    }
                }
                return (at, false);
            }
            if order::text_before(name, self.entries[at].0.as_str()) {
                proof {
                    order::text_antisymmetric(self.entries@[at as int].0@, name@);
                    map_at(self.entries@, at as int);
                }
                return (at, true);
            }
            at += 1;
        }
        proof {
            if self@.contains_key(name@) {
                let i = map_where(self.entries@, name@);
                assert(earlier(self.entries@[i].0@, name@));
            }
        }
        (at, false)
    }

    /// Is anything known of this name?
    pub fn has(&self, name: &str) -> (r: bool)
        ensures
            r == self@.contains_key(name@),
    {
        self.place(name).1
    }

    /// What is known of this name.
    pub fn get(&self, name: &str) -> (r: Option<&V>)
        ensures
            match r {
                Some(v) => self@.contains_key(name@) && *v == self@[name@],
                None => !self@.contains_key(name@),
            },
    {
        let (at, found) = self.place(name);
        if found {
            Some(&self.entries[at].1)
        } else {
            None
        }
    }

    /// Note this of the name, in place of what was known.
    pub fn insert(&mut self, name: String, v: V)
        ensures
            final(self)@ == old(self)@.insert(name@, v),
    {
        proof {
            use_type_invariant(&*self);
        }
        let (at, found) = self.place(name.as_str());
        let ghost was = self.entries@;
        let mut all: Vec<(String, V)> = Vec::new();
        std::mem::swap(&mut all, &mut self.entries);
        if found {
            proof {
                replaced(was, at as int, (name, v));
            }
            all.set(at, (name, v));
        } else {
            proof {
                inserted(was, at as int, (name, v));
            }
            all.insert(at, (name, v));
        }
        *self = Names { entries: all };
    }

    /// Know nothing of the name any more, and say what was known.
    pub fn take(&mut self, name: &str) -> (r: Option<V>)
        ensures
            final(self)@ == old(self)@.remove(name@),
            match r {
                Some(v) => old(self)@.contains_key(name@) && v == old(self)@[name@],
                None => !old(self)@.contains_key(name@),
            },
    {
        proof {
            use_type_invariant(&*self);
        }
        let (at, found) = self.place(name);
        if !found {
            assert(self@.remove(name@) =~= self@);
            return None;
        }
        let ghost was = self.entries@;
        let mut all: Vec<(String, V)> = Vec::new();
        std::mem::swap(&mut all, &mut self.entries);
        proof {
            dropped(was, at as int);
        }
        let (_, v) = all.remove(at);
        *self = Names { entries: all };
        Some(v)
    }

    /// Know nothing of the name any more.
    pub fn remove(&mut self, name: &str)
        ensures
            final(self)@ == old(self)@.remove(name@),
    {
        let _ = self.take(name);
    }

    /// All the names, in order and each once.
    pub fn all(&self) -> (out: Vec<String>)
        ensures
            order::in_order(out@),
            forall|i: int, j: int|
                0 <= i < j < out@.len() ==> earlier((#[trigger] out@[i])@, (#[trigger] out@[j])@),
            out@.len() == self.entries().len(),
            forall|i: int| 0 <= i < out@.len() ==> (#[trigger] out@[i])@ == self.entries()[i].0@,
            forall|k: Seq<char>| self@.contains_key(k) <==> #[trigger] lists(out@, k),
    {
        proof {
            use_type_invariant(self);
        }
        let n: usize = self.entries.len();
        let mut out: Vec<String> = Vec::new();
        let mut i: usize = 0;
        while i < n
            invariant
                n == self.entries@.len(),
                i <= n,
                out@.len() == i,
                forall|j: int| 0 <= j < i ==> (#[trigger] out@[j])@ == self.entries@[j].0@,
            decreases n - i,
        {
            out.push(self.entries[i].0.clone());
            i += 1;
        }
        proof {
            use_type_invariant(self);
            let e = self.entries@;
            assert forall|a: int, b: int| 0 <= a <= b < out@.len() implies order::text_precedes(
                (#[trigger] out@[a])@,
                (#[trigger] out@[b])@,
            ) by {
                if a < b {
                    assert(earlier(e[a].0@, e[b].0@));
                } else {
                    order::text_total(out@[a]@, out@[a]@);
                }
            }
            assert forall|k: Seq<char>| self@.contains_key(k) <==> #[trigger] lists(out@, k) by {
                if self@.contains_key(k) {
                    let i = map_where(e, k);
                    assert(out@[i]@ == k);
                }
                if lists(out@, k) {
                    let i = choose|i: int| 0 <= i < out@.len() && (#[trigger] out@[i])@ == k;
                    map_at(e, i);
                }
            }
        }
        out
    }
}

/// A register in order holds under each of its names what stands beside it, and
/// no other name.
pub proof fn a_register_holds_what_stands_in_it<V>(s: Seq<(String, V)>, k: Seq<char>, i: int)
    requires
        ascending(s),
    ensures
        0 <= i < s.len() ==> map_of(s).contains_key(s[i].0@) && map_of(s)[s[i].0@] == s[i].1,
        (forall|j: int| 0 <= j < s.len() ==> (#[trigger] s[j]).0@ != k) ==> !map_of(s).contains_key(
            k,
        ),
        0 <= i < s.len() ==> names_in(s)[i] == s[i].0@,
        names_in(s).len() == s.len(),
{
    if 0 <= i < s.len() {
        map_at(s, i);
    }
    if forall|j: int| 0 <= j < s.len() ==> (#[trigger] s[j]).0@ != k {
        assert forall|j: int| !stands(s, k, j) by {
            if 0 <= j < s.len() {
                assert(s[j].0@ != k);
            }
        }
    }
}

/// The texts of a list are its texts, in their order.
pub proof fn texts_are_in_their_order(s: Seq<String>, i: int)
    requires
        0 <= i < s.len(),
    ensures
        texts(s).len() == s.len(),
        texts(s)[i] == s[i]@,
        lists(s, s[i]@),
{
}

} // verus!
