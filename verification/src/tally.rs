//! What a run keeps count of.
use crate::names;
use crate::names::Names;
use crate::order;
use crate::order::Ranked;
use crate::text;
use vstd::prelude::*;

verus! {

// ---------------------------------------------------------------------------
// Why something stopped
// ---------------------------------------------------------------------------
/// Where the first line of a text ends.
pub open spec fn line_end(s: Seq<char>) -> int {
    let end = text::first_char(s, '\n', 0);
    if end < s.len() && end > 0 && s[end - 1] == '\r' {
        end - 1
    } else {
        end
    }
}

/// The first line of a text, without its end.
pub open spec fn first_line(s: Seq<char>) -> Seq<char> {
    s.take(line_end(s))
}

/// Does a colon with a space behind it stand at `i`?
pub open spec fn colon(s: Seq<char>, i: int) -> bool {
    0 <= i && i + 1 < s.len() && s[i] == ':' && s[i + 1] == ' '
}

/// Where the last colon with a space behind it stands among the first `n`
/// characters, or below nought.
pub open spec fn last_colon(s: Seq<char>, n: int) -> int
    decreases n,
{
    if n <= 0 {
        -1
    } else if colon(s, n - 1) {
        n - 1
    } else {
        last_colon(s, n - 1)
    }
}

/// What an error says, without where: of its first line what stands behind the
/// last colon.
pub open spec fn kind_of(s: Seq<char>) -> Seq<char> {
    let line = first_line(s);
    let at = last_colon(line, line.len() as int);
    if at < 0 {
        line
    } else {
        line.skip(at + 2)
    }
}

fn line_of(message: &str) -> (out: Vec<char>)
    ensures
        out@ == first_line(message@),
{
    let all = text::chars_of(message);
    proof {
        text::first_char_range(message@, '\n', 0);
    }
    let mut end: usize = text::find_char(all.as_slice(), '\n', 0);
    if end < all.len() && end > 0 && all[end - 1] == '\r' {
        end = end - 1;
    }
    let mut out: Vec<char> = Vec::new();
    text::append_range(&mut out, all.as_slice(), 0, end);
    assert(out@ =~= first_line(message@));
    out
}

/// What an error says, without where, so that one fault in twenty places counts
/// as one.
pub fn error_kind(message: &str) -> (out: String)
    ensures
        out@ == kind_of(message@),
{
    let line = line_of(message);
    let n: usize = line.len();
    let mut i: usize = n;
    while i > 0
        invariant
            n == line@.len(),
            i <= n,
            line@ == first_line(message@),
            last_colon(line@, n as int) == last_colon(line@, i as int),
        decreases i,
    {
        if i < n && line[i - 1] == ':' && line[i] == ' ' {
            let mut out: Vec<char> = Vec::new();
            assert(colon(line@, i - 1));
            text::append_range(&mut out, line.as_slice(), i + 1, n);
            assert(out@ =~= line@.skip(i + 1));
            return text::string_of(out.as_slice());
        }
        i -= 1;
    }
    text::string_of(line.as_slice())
}

/// What an error says, with where: its first line, without blanks around it.
pub fn error_line(message: &str) -> (out: String)
    ensures
        out@ == ({
            let line = first_line(message@);
            let from = text::skip_white(line, 0);
            let end = text::trimmed_end(line, line.len() as int);
            if from < end {
                line.subrange(from, end)
            } else {
                Seq::<char>::empty()
            }
        }),
{
    let line = line_of(message);
    proof {
        text::skip_white_range(line@, 0);
    }
    let from: usize = text::past_white(line.as_slice(), 0);
    let end: usize = text::trim_end_at(line.as_slice(), line.len());
    let mut out: Vec<char> = Vec::new();
    if from < end {
        text::append_range(&mut out, line.as_slice(), from, end);
    }
    proof {
        if from < end {
            assert(out@ =~= line@.subrange(from as int, end as int));
        }
    }
    text::string_of(out.as_slice())
}

/// Two errors of one kind at two places count as one: what stands before the
/// last colon of a line does not matter.
pub proof fn a_fault_has_one_kind(place: Seq<char>, said: Seq<char>)
    requires
        !place.contains('\n'),
        !said.contains('\n'),
        forall|i: int| !colon(said, i),
    ensures
        kind_of(place + seq![':', ' '] + said) == said,
{
    let s = place + seq![':', ' '] + said;
    let at = place.len() as int;
    assert(s[at] == ':' && s[at + 1] == ' ');
    assert forall|i: int| 0 <= i < s.len() implies s[i] != '\n' by {
        if i < at {
            assert(s[i] == place[i]);
        } else if i >= at + 2 {
            assert(s[i] == said[i - at - 2]);
        }
    }
    text::first_char_range(s, '\n', 0);
    assert(line_end(s) == s.len());
    assert(first_line(s) =~= s);
    last_colon_is(s, at, said, s.len() as int);
    assert(s.skip(at + 2) =~= said);
}

proof fn last_colon_is(s: Seq<char>, at: int, said: Seq<char>, n: int)
    requires
        0 <= at,
        at + 2 + said.len() == s.len(),
        colon(s, at),
        forall|i: int| 0 <= i < said.len() ==> s[at + 2 + i] == said[i],
        forall|i: int| !colon(said, i),
        at < n <= s.len(),
    ensures
        last_colon(s, n) == at,
    decreases n,
{
    if n - 1 > at {
        if colon(s, n - 1) {
            if n - 1 >= at + 2 {
                assert(s[at + 2 + (n - 1 - at - 2)] == said[n - 1 - at - 2]);
                assert(s[at + 2 + (n - at - 2)] == said[n - at - 2]);
                assert(colon(said, n - 1 - at - 2));
            }
        }
        last_colon_is(s, at, said, n - 1);
    }
}

// ---------------------------------------------------------------------------
// Counts by name
// ---------------------------------------------------------------------------
/// How often a name has been counted.
pub open spec fn times(counts: Map<Seq<char>, usize>, name: Seq<char>) -> usize {
    if counts.contains_key(name) {
        counts[name]
    } else {
        0
    }
}

/// Count a name once more.
pub fn count(counts: &mut Names<usize>, name: String)
    requires
        times(old(counts)@, name@) < usize::MAX,
    ensures
        final(counts)@ == old(counts)@.insert(name@, (times(old(counts)@, name@) + 1) as usize),
{
    let n: usize = match counts.get(name.as_str()) {
        Some(n) => *n,
        None => 0,
    };
    counts.insert(name, n + 1);
}

/// A name and how often it was called for.
pub struct Missing {
    pub name: String,
    pub calls: usize,
}

/// The commonest first, and where two are as common, the names in order.
impl Ranked for Missing {
    open spec fn precedes(self, other: Self) -> bool {
        ||| self.calls > other.calls
        ||| self.calls == other.calls && order::text_precedes(self.name@, other.name@)
    }

    proof fn total(a: Self, b: Self) {
        order::text_total(a.name@, b.name@);
    }

    proof fn transitive(a: Self, b: Self, c: Self) {
        if a.calls == b.calls && b.calls == c.calls {
            order::text_transitive(a.name@, b.name@, c.name@);
        }
    }

    fn is_before(&self, other: &Self) -> (r: bool) {
        self.calls > other.calls || (self.calls == other.calls && order::text_before(
            self.name.as_str(),
            other.name.as_str(),
        ))
    }
}

/// Does this stand in a register?
pub open spec fn stands_in(counts: Map<Seq<char>, usize>, m: Missing) -> bool {
    counts.contains_key(m.name@) && counts[m.name@] == m.calls
}

/// What is called for and has no behaviour yet, the commonest first: the order
/// in which it is worth doing.
pub fn work_list(counts: &Names<usize>) -> (out: Vec<Missing>)
    ensures
        order::in_order(out@),
        out@.len() == counts.entries().len(),
        forall|i: int| 0 <= i < out@.len() ==> stands_in(counts@, #[trigger] out@[i]),
        forall|i: int, j: int|
            0 <= i < j < out@.len() ==> (#[trigger] out@[i]).name@ != (#[trigger] out@[j]).name@,
{
    let n: usize = counts.len();
    let mut all: Vec<Missing> = Vec::new();
    let mut i: usize = 0;
    while i < n
        invariant
            n == counts.entries().len(),
            i <= n,
            names::ascending(counts.entries()),
            all@.len() == i,
            forall|j: int|
                0 <= j < i ==> (#[trigger] all@[j]).name@ == counts.entries()[j].0@ && stands_in(
                    counts@,
                    all@[j],
                ),
        decreases n - i,
    {
        let (name, calls) = counts.at(i);
        all.push(Missing { name: name.to_owned(), calls: *calls });
        i += 1;
    }
    let ghost was = all@;
    let out = order::sorted(all);
    proof {
        assert(was.no_duplicates()) by {
            assert forall|a: int, b: int| 0 <= a < was.len() && 0 <= b < was.len() && a
                != b implies was[a] != was[b] by {
                if a < b {
                    assert(names::earlier(counts.entries()[a].0@, counts.entries()[b].0@));
                } else {
                    assert(names::earlier(counts.entries()[b].0@, counts.entries()[a].0@));
                }
            }
        }
        order::same_values(out@, was);
        assert forall|i: int| 0 <= i < out@.len() implies stands_in(counts@, #[trigger] out@[i]) by {
            assert(out@.contains(out@[i]));
            assert(was.contains(out@[i]));
            let k = choose|k: int| 0 <= k < was.len() && was[k] == out@[i];
            assert(stands_in(counts@, was[k]));
        }
        assert forall|i: int, j: int| 0 <= i < j < out@.len() implies (#[trigger] out@[i]).name@ != (
        #[trigger] out@[j]).name@ by {
            assert(out@.contains(out@[i]) && out@.contains(out@[j]));
            let a = choose|a: int| 0 <= a < was.len() && was[a] == out@[i];
            let b = choose|b: int| 0 <= b < was.len() && was[b] == out@[j];
            assert(a != b);
            if a < b {
                assert(names::earlier(counts.entries()[a].0@, counts.entries()[b].0@));
            } else {
                assert(names::earlier(counts.entries()[b].0@, counts.entries()[a].0@));
            }
        }
    }
    out
}

/// Does a function that is only recorded hand back something to write to? By
/// the scripts' own names it does where it creates, makes or fetches.
pub open spec fn makes_something(name: Seq<char>) -> bool {
    ||| within(name, "Create"@)
    ||| within(name, "Make"@)
    ||| within(name, "New"@)
    ||| within(name, "Get"@)
}

/// Does a text hold another?
pub open spec fn within(s: Seq<char>, part: Seq<char>) -> bool {
    exists|i: int| #[trigger] text::stands_at(s, i, part)
}

fn holds(s: &Vec<char>, part: &str) -> (r: bool)
    requires
        part@.len() > 0,
    ensures
        r == within(s@, part@),
{
    let n: usize = s.len();
    let mut i: usize = 0;
    while i < n
        invariant
            n == s@.len(),
            i <= n,
            part@.len() > 0,
            forall|j: int| 0 <= j < i ==> !#[trigger] text::stands_at(s@, j, part@),
        decreases n - i,
    {
        if text::is_at(s.as_slice(), i, part) {
            return true;
        }
        i += 1;
    }
    assert forall|j: int| !#[trigger] text::stands_at(s@, j, part@) by {}
    false
}

/// Is a script a scene graph: one that registers objects?
pub fn is_scene_graph(source: &str) -> (r: bool)
    ensures
        r == within(source@, "mdkRegisterObject("@),
{
    let s = text::chars_of(source);
    proof {
        reveal_strlit("mdkRegisterObject(");
    }
    holds(&s, "mdkRegisterObject(")
}

/// Does a function that is only recorded hand back something to write to?
pub fn makes(name: &str) -> (r: bool)
    ensures
        r == makes_something(name@),
{
    let s = text::chars_of(name);
    proof {
        reveal_strlit("Create");
        reveal_strlit("Make");
        reveal_strlit("New");
        reveal_strlit("Get");
    }
    holds(&s, "Create") || holds(&s, "Make") || holds(&s, "New") || holds(&s, "Get")
}

// ---------------------------------------------------------------------------
// A run
// ---------------------------------------------------------------------------
/// What a run keeps between its ticks: the room that the player is in, what it
/// is against, and what has been called with what outcome.
pub struct Ticking {
    pub room: Option<usize>,
    pub rooms_entered: usize,
    /// For each handler how often it was called, and how often it came to its
    /// end.
    pub fired: Names<(usize, usize)>,
    pub touching: Names<()>,
    pub collisions: usize,
    pub touched: Names<()>,
    /// What the others said when they stopped, and how often.
    pub why: Names<usize>,
}

/// The calls of the first `n` handlers, and how many came to their end.
pub open spec fn sums(s: Seq<(String, (usize, usize))>, n: int) -> (int, int)
    decreases n,
{
    if n <= 0 {
        (0, 0)
    } else {
        let (f, e) = sums(s, n - 1);
        (f + s[n - 1].1.0, e + s[n - 1].1.1)
    }
}

proof fn sums_grow(s: Seq<(String, (usize, usize))>, i: int, n: int)
    requires
        0 <= i <= n <= s.len(),
    ensures
        sums(s, i).0 <= sums(s, n).0,
        sums(s, i).1 <= sums(s, n).1,
    decreases n,
{
    if i < n {
        sums_grow(s, i, n - 1);
    }
}

impl Ticking {
    /// A run that has not begun.
    pub fn new() -> (t: Ticking)
        ensures
            t.room is None,
            t.rooms_entered == 0,
            t.fired@ == Map::<Seq<char>, (usize, usize)>::empty(),
            t.touching@ == Map::<Seq<char>, ()>::empty(),
            t.collisions == 0,
            t.touched@ == Map::<Seq<char>, ()>::empty(),
            t.why@ == Map::<Seq<char>, usize>::empty(),
    {
        Ticking {
            room: None,
            rooms_entered: 0,
            fired: Names::new(),
            touching: Names::new(),
            collisions: 0,
            touched: Names::new(),
            why: Names::new(),
        }
    }

    /// How often a handler was called, and how often it came to its end.
    pub open spec fn calls(&self, slot: Seq<char>) -> (usize, usize) {
        if self.fired@.contains_key(slot) {
            self.fired@[slot]
        } else {
            (0, 0)
        }
    }

    /// A handler was called; `ended` says whether it came to its end.
    pub fn called(&mut self, slot: &str, ended: bool)
        requires
            old(self).calls(slot@).0 < usize::MAX,
            old(self).calls(slot@).1 < usize::MAX,
        ensures
            final(self).fired@ == old(self).fired@.insert(
                slot@,
                (
                    (old(self).calls(slot@).0 + 1) as usize,
                    (old(self).calls(slot@).1 + if ended {
                        1int
                    } else {
                        0
                    }) as usize,
                ),
            ),
            final(self).room == old(self).room,
            final(self).rooms_entered == old(self).rooms_entered,
            final(self).touching == old(self).touching,
            final(self).collisions == old(self).collisions,
            final(self).touched == old(self).touched,
            final(self).why == old(self).why,
    {
        let (f, e) = match self.fired.get(slot) {
            Some(c) => *c,
            None => (0usize, 0usize),
        };
        let more: usize = if ended {
            e + 1
        } else {
            e
        };
        self.fired.insert(slot.to_owned(), (f + 1, more));
    }

    /// All calls, and how many of them came to their end.
    pub fn total(&self) -> (r: (usize, usize))
        requires
            sums(self.fired.entries(), self.fired.entries().len() as int).0 <= usize::MAX,
            sums(self.fired.entries(), self.fired.entries().len() as int).1 <= usize::MAX,
        ensures
            (r.0 as int, r.1 as int) == sums(
                self.fired.entries(),
                self.fired.entries().len() as int,
            ),
    {
        let n: usize = self.fired.len();
        let (mut f, mut e): (usize, usize) = (0, 0);
        let mut i: usize = 0;
        while i < n
            invariant
                n == self.fired.entries().len(),
                i <= n,
                sums(self.fired.entries(), n as int).0 <= usize::MAX,
                sums(self.fired.entries(), n as int).1 <= usize::MAX,
                (f as int, e as int) == sums(self.fired.entries(), i as int),
            decreases n - i,
        {
            let (_, c) = self.fired.at(i);
            proof {
                sums_grow(self.fired.entries(), i + 1, n as int);
            }
            f = f + c.0;
            e = e + c.1;
            i += 1;
        }
        (f, e)
    }
}

/// Those of the first `n` names that another register does not hold.
pub open spec fn without<V, W>(s: Seq<(String, V)>, other: Map<Seq<char>, W>, n: int) -> Seq<
    Seq<char>,
>
    decreases n,
{
    if n <= 0 {
        seq![]
    } else {
        let rest = without(s, other, n - 1);
        if other.contains_key(s[n - 1].0@) {
            rest
        } else {
            rest.push(s[n - 1].0@)
        }
    }
}

/// The names that one register holds and another does not, in order.
pub fn only_in<V, W>(a: &Names<V>, b: &Names<W>) -> (out: Vec<String>)
    ensures
        names::texts(out@) == without(a.entries(), b@, a.entries().len() as int),
{
    let n: usize = a.len();
    let mut out: Vec<String> = Vec::new();
    let mut i: usize = 0;
    assert(names::texts(out@) =~= without(a.entries(), b@, 0));
    while i < n
        invariant
            n == a.entries().len(),
            i <= n,
            names::texts(out@) == without(a.entries(), b@, i as int),
        decreases n - i,
    {
        let (name, _) = a.at(i);
        if !b.has(name) {
            let ghost before = out@;
            out.push(name.to_owned());
            assert(names::texts(out@) =~= names::texts(before).push(name@));
        }
        i += 1;
    }
    out
}

impl Ticking {
    /// The body is against these now. What it has come up against and what it
    /// has come away from are the two edges; from now on it is against these,
    /// and has been against what it came up against.
    pub fn touch(&mut self, touching: Names<()>) -> (edges: (Vec<String>, Vec<String>))
        ensures
            names::texts(edges.0@) == without(
                touching.entries(),
                old(self).touching@,
                touching.entries().len() as int,
            ),
            names::texts(edges.1@) == without(
                old(self).touching.entries(),
                touching@,
                old(self).touching.entries().len() as int,
            ),
            final(self).touching == touching,
            forall|k: Seq<char>|
                #![trigger final(self).touched@.contains_key(k)]
                final(self).touched@.contains_key(k) <==> old(self).touched@.contains_key(k)
                    || names::texts(edges.0@).contains(k),
            final(self).fired == old(self).fired,
            final(self).collisions == old(self).collisions,
            final(self).room == old(self).room,
            final(self).rooms_entered == old(self).rooms_entered,
            final(self).why == old(self).why,
    {
        let began = only_in(&touching, &self.touching);
        let ended = only_in(&self.touching, &touching);
        let n: usize = began.len();
        let ghost t = names::texts(began@);
        let mut i: usize = 0;
        while i < n
            invariant
                n == began@.len(),
                i <= n,
                t == names::texts(began@),
                self.touching == old(self).touching,
                self.fired == old(self).fired,
                self.collisions == old(self).collisions,
                self.room == old(self).room,
                self.rooms_entered == old(self).rooms_entered,
                self.why == old(self).why,
                forall|k: Seq<char>|
                    #![trigger self.touched@.contains_key(k)]
                    self.touched@.contains_key(k) <==> old(self).touched@.contains_key(k)
                        || t.take(i as int).contains(k),
            decreases n - i,
        {
            let ghost before = self.touched@;
            self.touched.insert(began[i].clone(), ());
            proof {
                assert(t.take(i + 1) == t.take(i as int).push(began@[i as int]@));
                assert forall|k: Seq<char>| #![trigger self.touched@.contains_key(k)]
                    self.touched@.contains_key(k) <==> old(self).touched@.contains_key(k) || t.take(
                        i + 1,
                    ).contains(k) by {
                    let a = t.take(i as int);
                    let b = t.take(i + 1);
                    assert(before.contains_key(k) <==> old(self).touched@.contains_key(k)
                        || a.contains(k));
                    if a.contains(k) {
                        let m = choose|m: int| 0 <= m < a.len() && a[m] == k;
                        assert(b[m] == k);
                    }
                    assert(b[i as int] == began@[i as int]@);
                    if b.contains(k) {
                        let m = choose|m: int| 0 <= m < b.len() && b[m] == k;
                        if m < i {
                            assert(a[m] == k);
                        }
                    }
                }
            }
            i += 1;
        }
        assert(t.take(n as int) == t);
        self.touching = touching;
        (began, ended)
    }
}

/// What comes up is not what goes away: no name is on both edges.
pub proof fn edges_are_apart<V, W>(
    a: Seq<(String, V)>,
    b: Seq<(String, W)>,
    n: int,
    m: int,
    k: Seq<char>,
)
    requires
        names::ascending(a),
        names::ascending(b),
        0 <= n <= a.len(),
        0 <= m <= b.len(),
    ensures
        !(without(a, names::map_of(b), n).contains(k) && without(
            b,
            names::map_of(a),
            m,
        ).contains(k)),
{
    without_only(a, names::map_of(b), n, k);
    without_only(b, names::map_of(a), m, k);
    if without(a, names::map_of(b), n).contains(k) && without(b, names::map_of(a), m).contains(k) {
        let i = choose|i: int| 0 <= i < n && (#[trigger] a[i]).0@ == k;
        names::map_at(a, i);
    }
}

/// What is listed stands in the one and not in the other.
pub proof fn without_only<V, W>(s: Seq<(String, V)>, other: Map<Seq<char>, W>, n: int, k: Seq<char>)
    requires
        0 <= n <= s.len(),
    ensures
        without(s, other, n).contains(k) <==> !other.contains_key(k) && exists|i: int|
            0 <= i < n && (#[trigger] s[i]).0@ == k,
    decreases n,
{
    if n > 0 {
        without_only(s, other, n - 1, k);
        let rest = without(s, other, n - 1);
        let all = without(s, other, n);
        if rest.contains(k) {
            let i = choose|i: int| 0 <= i < rest.len() && rest[i] == k;
            assert(all[i] == k);
        }
        if s[n - 1].0@ == k && !other.contains_key(k) {
            assert(all[all.len() - 1] == k);
        }
        if all.contains(k) && !rest.contains(k) {
            let i = choose|i: int| 0 <= i < all.len() && all[i] == k;
            assert(i == rest.len());
            assert(s[n - 1].0@ == k);
        }
    } else {
        assert(!without(s, other, n).contains(k));
    }
}

/// An error is told by its first line: whatever stands before the first line
/// feed, without a carriage return at its end. A text without a line feed is
/// one line.
pub proof fn the_first_line_is_told(line: Seq<char>, rest: Seq<char>)
    requires
        !line.contains('\n'),
    ensures
        first_line(line) == line,
        line.len() == 0 || line.last() != '\r' ==> first_line(line + seq!['\n'] + rest) == line,
        first_line(line + seq!['\r', '\n'] + rest) == line,
{
    assert forall|k: int| 0 <= k < line.len() implies line[k] != '\n' by {
        assert(line.contains(line[k]));
    }
    text::the_first_is_found(line, '\n', 0, line.len() as int);
    assert(line.take(line.len() as int) =~= line);
    let a = line + seq!['\n'] + rest;
    assert forall|k: int| 0 <= k < line.len() implies #[trigger] a[k] != '\n' by {
        assert(a[k] == line[k]);
    }
    assert(a[line.len() as int] == '\n');
    text::the_first_is_found(a, '\n', 0, line.len() as int);
    if line.len() == 0 || line.last() != '\r' {
        if line.len() > 0 {
            assert(a[line.len() - 1] == line.last());
        }
        assert(a.take(line.len() as int) =~= line);
    }
    let b = line + seq!['\r', '\n'] + rest;
    assert forall|k: int| 0 <= k < line.len() + 1 implies #[trigger] b[k] != '\n' by {
        if k < line.len() {
            assert(b[k] == line[k]);
        } else {
            assert(b[k] == '\r');
        }
    }
    assert(b[line.len() + 1int] == '\n');
    text::the_first_is_found(b, '\n', 0, line.len() + 1int);
    assert(b[line.len() as int] == '\r');
    assert(b.take(line.len() as int) =~= line);
}

/// Where a line has no colon with a space behind it, all of it is the kind of
/// the error.
pub proof fn without_a_colon_the_line_is_the_kind(line: Seq<char>)
    requires
        !line.contains('\n'),
        forall|i: int|
            0 <= i < line.len() - 1 ==> !(#[trigger] line[i] == ':' && line[i + 1] == ' '),
    ensures
        kind_of(line) == line,
{
    the_first_line_is_told(line, line);
    no_colon(line, line.len() as int);
}

proof fn no_colon(line: Seq<char>, n: int)
    requires
        0 <= n <= line.len(),
        forall|i: int|
            0 <= i < line.len() - 1 ==> !(#[trigger] line[i] == ':' && line[i + 1] == ' '),
    ensures
        last_colon(line, n) == -1,
    decreases n,
{
    if n > 0 {
        if n - 1 < line.len() - 1 {
            assert(!(line[n - 1] == ':' && line[n] == ' '));
        }
        no_colon(line, n - 1);
    }
}

/// A name has been counted as often as its register says, and never where it
/// does not say.
pub proof fn a_register_says_how_often(counts: Map<Seq<char>, usize>, name: Seq<char>)
    ensures
        counts.contains_key(name) ==> times(counts, name) == counts[name],
        !counts.contains_key(name) ==> times(counts, name) == 0,
{
}

/// What makes or fetches something says so in its name, wherever in it.
pub proof fn makers_say_so(a: Seq<char>, b: Seq<char>)
    ensures
        makes_something(a + "Create"@ + b),
        makes_something(a + "Make"@ + b),
        makes_something(a + "New"@ + b),
        makes_something(a + "Get"@ + b),
{
    held_in_the_middle(a, "Create"@, b);
    held_in_the_middle(a, "Make"@, b);
    held_in_the_middle(a, "New"@, b);
    held_in_the_middle(a, "Get"@, b);
}

/// A text holds whatever stands in the middle of it.
pub proof fn held_in_the_middle(a: Seq<char>, part: Seq<char>, b: Seq<char>)
    ensures
        within(a + part + b, part),
{
    let s = a + part + b;
    assert(s.subrange(a.len() as int, (a.len() + part.len()) as int) =~= part);
    assert(text::stands_at(s, a.len() as int, part));
}

/// A text that holds another has that in its middle; so that a name is no
/// maker's in which none of the four words stands.
pub proof fn only_makers_say_so(s: Seq<char>, part: Seq<char>)
    ensures
        within(s, part) ==> exists|a: Seq<char>, b: Seq<char>| s == #[trigger] (a + part + b),
        makes_something(s) ==> within(s, "Create"@) || within(s, "Make"@) || within(s, "New"@)
            || within(s, "Get"@),
{
    if within(s, part) {
        let i = choose|i: int| #[trigger] text::stands_at(s, i, part);
        let a = s.take(i);
        let b = s.skip(i + part.len());
        assert(s =~= a + part + b);
    }
}

/// All calls are the sum of the calls of each handler, and all that came to
/// their end the sum of those.
pub proof fn one_more_handler_is_summed(s: Seq<(String, (usize, usize))>, n: int)
    requires
        0 <= n < s.len(),
    ensures
        sums(s, 0) == (0int, 0int),
        sums(s, n + 1).0 == sums(s, n).0 + s[n].1.0,
        sums(s, n + 1).1 == sums(s, n).1 + s[n].1.1,
{
}

/// One more name is only in the one exactly if it is not in the other; then it
/// comes behind the others.
pub proof fn every_name_is_held_against_the_other<V, W>(
    s: Seq<(String, V)>,
    other: Map<Seq<char>, W>,
    n: int,
)
    requires
        0 <= n < s.len(),
    ensures
        without(s, other, 0) == Seq::<Seq<char>>::empty(),
        !other.contains_key(s[n].0@) ==> without(s, other, n + 1) == without(s, other, n).push(
            s[n].0@,
        ),
        other.contains_key(s[n].0@) ==> without(s, other, n + 1) == without(s, other, n),
{
}

/// How often a handler has been called, and how often it came to its end, is
/// what its register says, and never where it does not say.
pub proof fn a_handler_is_counted_by_name(t: &Ticking, slot: Seq<char>)
    ensures
        t.fired@.contains_key(slot) ==> t.calls(slot) == t.fired@[slot],
        !t.fired@.contains_key(slot) ==> t.calls(slot) == (0usize, 0usize),
{
}

/// What is called for more often comes first, and of two that are called for as
/// often, the one whose name does.
pub proof fn the_commonest_comes_first(a: Missing, b: Missing)
    ensures
        a.calls > b.calls ==> a.precedes(b) && !b.precedes(a),
        a.calls == b.calls ==> (a.precedes(b) <==> order::text_precedes(a.name@, b.name@)),
{
}

} // verus!
