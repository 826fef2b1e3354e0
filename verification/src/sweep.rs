//! What a sweep over many level starts comes to.
use crate::args;
use crate::boot::Boot;
use crate::input;
use crate::names;
use crate::names::Names;
use crate::order;
use crate::tally;
use crate::tally::Ticking;
use crate::text;
use vstd::prelude::*;

verus! {

/// Does a name stand before `n` in a list?
pub open spec fn seen<V>(s: Seq<(String, V)>, k: Seq<char>, n: int) -> bool {
    exists|i: int| i < n && #[trigger] names::stands(s, k, i)
}

/// Put the names of one register into another.
pub fn unite(into: &mut Names<()>, from: &Names<()>)
    ensures
        final(into)@ == old(into)@.union_prefer_right(from@),
{
    let n: usize = from.len();
    let mut i: usize = 0;
    while i < n
        invariant
            n == from.entries().len(),
            names::ascending(from.entries()),
            i <= n,
            forall|k: Seq<char>| #[trigger]
                into@.contains_key(k) <==> old(into)@.contains_key(k) || seen(
                    from.entries(),
                    k,
                    i as int,
                ),
        decreases n - i,
    {
        let (name, _) = from.at(i);
        let ghost before = into@;
        into.insert(name.to_owned(), ());
        proof {
            assert forall|k: Seq<char>| #[trigger]
                into@.contains_key(k) <==> old(into)@.contains_key(k) || seen(
                    from.entries(),
                    k,
                    i + 1,
                ) by {
                step_seen(from.entries(), k, i as int);
                assert(before.contains_key(k) <==> old(into)@.contains_key(k) || seen(
                    from.entries(),
                    k,
                    i as int,
                ));
            }
        }
        i += 1;
    }
    proof {
        assert forall|k: Seq<char>| #[trigger] from@.contains_key(k) <==> seen(
            from.entries(),
            k,
            n as int,
        ) by {
            if from@.contains_key(k) {
                let j = names::map_where(from.entries(), k);
            }
            if seen(from.entries(), k, n as int) {
                let j = choose|j: int| j < n && #[trigger] names::stands(from.entries(), k, j);
                names::map_at(from.entries(), j);
            }
        }
        assert(into@ =~= old(into)@.union_prefer_right(from@));
    }
}

proof fn step_seen<V>(s: Seq<(String, V)>, k: Seq<char>, i: int)
    requires
        0 <= i < s.len(),
    ensures
        seen(s, k, i + 1) <==> seen(s, k, i) || s[i].0@ == k,
{
    if seen(s, k, i + 1) {
        let j = choose|j: int| j < i + 1 && #[trigger] names::stands(s, k, j);
        if j < i {
            assert(names::stands(s, k, j));
        }
    }
    if seen(s, k, i) {
        let j = choose|j: int| j < i && #[trigger] names::stands(s, k, j);
        assert(names::stands(s, k, j));
    }
    if s[i].0@ == k {
        assert(names::stands(s, k, i));
    }
}

/// Is `all` what two counts come to together?
pub open spec fn together(
    all: Map<Seq<char>, usize>,
    a: Map<Seq<char>, usize>,
    b: Map<Seq<char>, usize>,
) -> bool {
    &&& forall|k: Seq<char>| #[trigger]
        all.contains_key(k) <==> a.contains_key(k) || b.contains_key(k)
    &&& forall|k: Seq<char>| #[trigger]
        tally::times(all, k) == tally::times(a, k) + tally::times(b, k)
}

/// Do two counts have a sum that can be held?
pub open spec fn addable(a: Map<Seq<char>, usize>, b: Map<Seq<char>, usize>) -> bool {
    forall|k: Seq<char>|
        tally::times(a, k) + #[trigger] tally::times(b, k) <= usize::MAX
}

/// Count what was counted elsewhere too.
pub fn combine(into: &mut Names<usize>, from: &Names<usize>)
    requires
        addable(old(into)@, from@),
    ensures
        together(final(into)@, old(into)@, from@),
{
    let n: usize = from.len();
    let mut i: usize = 0;
    while i < n
        invariant
            n == from.entries().len(),
            names::ascending(from.entries()),
            i <= n,
            addable(old(into)@, from@),
            forall|k: Seq<char>| #[trigger]
                into@.contains_key(k) <==> old(into)@.contains_key(k) || seen(
                    from.entries(),
                    k,
                    i as int,
                ),
            forall|k: Seq<char>| #[trigger]
                tally::times(into@, k) == tally::times(old(into)@, k) + if seen(
                    from.entries(),
                    k,
                    i as int,
                ) {
                    tally::times(from@, k) as int
                } else {
                    0
                },
        decreases n - i,
    {
        let (name, more) = from.at(i);
        let had: usize = match into.get(name) {
            Some(n) => *n,
            None => 0,
        };
        let ghost before = into@;
        proof {
            if seen(from.entries(), name@, i as int) {
                let j = choose|j: int| j < i && #[trigger] names::stands(from.entries(), name@, j);
                assert(names::earlier(from.entries()[j].0@, from.entries()[i as int].0@));
            }
            assert(had == tally::times(before, name@));
            assert(*more == tally::times(from@, name@));
        }
        into.insert(name.to_owned(), had + *more);
        proof {
            assert forall|k: Seq<char>| #[trigger]
                into@.contains_key(k) <==> old(into)@.contains_key(k) || seen(
                    from.entries(),
                    k,
                    i + 1,
                ) by {
                step_seen(from.entries(), k, i as int);
                assert(before.contains_key(k) <==> old(into)@.contains_key(k) || seen(
                    from.entries(),
                    k,
                    i as int,
                ));
            }
            assert forall|k: Seq<char>| #[trigger]
                tally::times(into@, k) == tally::times(old(into)@, k) + if seen(
                    from.entries(),
                    k,
                    i + 1,
                ) {
                    tally::times(from@, k) as int
                } else {
                    0
                } by {
                step_seen(from.entries(), k, i as int);
                assert(tally::times(before, k) == tally::times(old(into)@, k) + if seen(
                    from.entries(),
                    k,
                    i as int,
                ) {
                    tally::times(from@, k) as int
                } else {
                    0
                });
            }
        }
        i += 1;
    }
    proof {
        assert forall|k: Seq<char>| #[trigger] from@.contains_key(k) <==> seen(
            from.entries(),
            k,
            n as int,
        ) by {
            if from@.contains_key(k) {
                let j = names::map_where(from.entries(), k);
            }
            if seen(from.entries(), k, n as int) {
                let j = choose|j: int| j < n && #[trigger] names::stands(from.entries(), k, j);
                names::map_at(from.entries(), j);
            }
        }
    }
}

/// What a sweep has found so far.
pub struct Sweep {
    /// Starts that succeeded, and what was said of those that did not.
    pub started: usize,
    pub failures: Vec<String>,
    /// What the levels have, each level counted once.
    pub rooms: usize,
    pub checkpoints: usize,
    pub stasis: usize,
    pub timers: usize,
    /// The most that any level has.
    pub commands: usize,
    pub bindings: usize,
    /// Numbers bound that stand for nothing, in order and each once.
    pub faults: Vec<u32>,
    /// What the starts have named, and the functions that they called.
    pub resources: Names<()>,
    pub sounds: Names<()>,
    pub work: Names<usize>,
    /// The handlers that were called, those that came to their end, and why the
    /// others did not.
    pub fired: usize,
    pub survived: usize,
    pub why: Names<usize>,
}

impl Sweep {
    /// Nothing yet.
    pub fn new() -> (s: Sweep)
        ensures
            s.started == 0 && s.failures@.len() == 0,
            s.rooms == 0 && s.checkpoints == 0 && s.stasis == 0 && s.timers == 0,
            s.commands == 0 && s.bindings == 0 && s.faults@.len() == 0,
            s.resources@ == Map::<Seq<char>, ()>::empty(),
            s.sounds@ == Map::<Seq<char>, ()>::empty(),
            s.work@ == Map::<Seq<char>, usize>::empty(),
            s.fired == 0 && s.survived == 0,
            s.why@ == Map::<Seq<char>, usize>::empty(),
    {
        Sweep {
            started: 0,
            failures: Vec::new(),
            rooms: 0,
            checkpoints: 0,
            stasis: 0,
            timers: 0,
            commands: 0,
            bindings: 0,
            faults: Vec::new(),
            resources: Names::new(),
            sounds: Names::new(),
            work: Names::new(),
            fired: 0,
            survived: 0,
            why: Names::new(),
        }
    }

    /// Count what a level has. That is the same at each of its checkpoints, so
    /// a level is counted once.
    pub fn learn<F>(&mut self, b: &Boot<F>)
        requires
            old(self).rooms + b.rooms.rooms().len() <= usize::MAX,
            old(self).checkpoints + b.checkpoints.list().len() <= usize::MAX,
            old(self).stasis + b.stasis.entries().len() <= usize::MAX,
            old(self).timers + b.timers.due.entries().len() <= usize::MAX,
        ensures
            final(self).rooms == old(self).rooms + b.rooms.rooms().len(),
            final(self).checkpoints == old(self).checkpoints + b.checkpoints.list().len(),
            final(self).stasis == old(self).stasis + b.stasis.entries().len(),
            final(self).timers == old(self).timers + b.timers.due.entries().len(),
            final(self).commands == (if b.input.commands@.len() > old(self).commands {
                b.input.commands@.len()
            } else {
                old(self).commands as nat
            }),
            final(self).bindings == (if b.input.bindings@.len() > old(self).bindings {
                b.input.bindings@.len()
            } else {
                old(self).bindings as nat
            }),
            forall|i: int, j: int|
                0 <= i < j < final(self).faults@.len() ==> final(self).faults@[i]
                    < final(self).faults@[j],
            forall|id: u32| #[trigger]
                final(self).faults@.contains(id) <==> old(self).faults@.contains(id) || exists|i: int|
                    #[trigger] input::bound_fault(b.input.bindings@, id, i),
            *final(self) == (Sweep {
                rooms: final(self).rooms,
                checkpoints: final(self).checkpoints,
                stasis: final(self).stasis,
                timers: final(self).timers,
                commands: final(self).commands,
                bindings: final(self).bindings,
                faults: final(self).faults,
                ..*old(self)
            }),
    {
        self.rooms = self.rooms + b.rooms.len();
        self.checkpoints = self.checkpoints + b.checkpoints.len();
        self.stasis = self.stasis + b.stasis.len();
        self.timers = self.timers + b.timers.due.len();
        if b.input.commands.len() > self.commands {
            self.commands = b.input.commands.len();
        }
        if b.input.bindings.len() > self.bindings {
            self.bindings = b.input.bindings.len();
        }
        let mut all: Vec<u32> = Vec::new();
        std::mem::swap(&mut all, &mut self.faults);
        let ghost had = all@;
        let mut more = b.input.faults();
        let ghost found = more@;
        all.append(&mut more);
        proof {
            assert(all@ == had + found);
            assert forall|id: u32| #[trigger] all@.contains(id) <==> had.contains(id)
                || found.contains(id) by {
                if had.contains(id) {
                    let k = choose|k: int| 0 <= k < had.len() && had[k] == id;
                    assert(all@[k] == id);
                }
                if found.contains(id) {
                    let k = choose|k: int| 0 <= k < found.len() && found[k] == id;
                    assert(all@[had.len() + k] == id);
                }
            }
        }
        self.faults = order::sorted_once(all);
    }

    /// Count a start that succeeded: what it named, and the handlers that were
    /// called in it.
    pub fn ran<F>(&mut self, b: &Boot<F>, fired: usize, survived: usize, why: &Names<usize>)
        requires
            old(self).started < usize::MAX,
            old(self).fired + fired <= usize::MAX,
            old(self).survived + survived <= usize::MAX,
            addable(old(self).why@, why@),
            addable(old(self).work@, b.unimplemented@),
        ensures
            final(self).started == old(self).started + 1,
            final(self).fired == old(self).fired + fired,
            final(self).survived == old(self).survived + survived,
            together(final(self).why@, old(self).why@, why@),
            together(final(self).work@, old(self).work@, b.unimplemented@),
            final(self).resources@ == old(self).resources@.union_prefer_right(b.resources@),
            final(self).sounds@ == old(self).sounds@.union_prefer_right(b.hard_coded@),
            *final(self) == (Sweep {
                started: final(self).started,
                fired: final(self).fired,
                survived: final(self).survived,
                why: final(self).why,
                work: final(self).work,
                resources: final(self).resources,
                sounds: final(self).sounds,
                ..*old(self)
            }),
    {
        self.started = self.started + 1;
        self.fired = self.fired + fired;
        self.survived = self.survived + survived;
        combine(&mut self.why, why);
        combine(&mut self.work, &b.unimplemented);
        unite(&mut self.resources, &b.resources);
        unite(&mut self.sounds, &b.hard_coded);
    }

    /// Note a start that failed.
    pub fn failed(&mut self, level: u32, checkpoint: u32, said: &str)
        ensures
            final(self).failures@.len() == old(self).failures@.len() + 1,
            final(self).failures@.drop_last() == old(self).failures@,
            final(self).failures@.last()@ == failure(level as nat, checkpoint as nat, said@),
            *final(self) == (Sweep { failures: final(self).failures, ..*old(self) }),
    {
        let mut line: String = "l".to_owned();
        let n = text::integer(level as i64);
        line.append(n.as_str());
        line.append(" cp");
        let c = text::integer(checkpoint as i64);
        line.append(c.as_str());
        line.append(": ");
        line.append(said);
        let ghost was = self.failures@;
        self.failures.push(line);
        assert(self.failures@.drop_last() =~= was);
    }

    /// What is wrong with the sweep, if anything is: a start that failed, a
    /// count that was expected to be another, a resource that the game does not
    /// have, or a number bound that stands for nothing. The first of these
    /// counts.
    pub open spec fn complaint(&self, args: Seq<String>, missing: nat) -> Option<Seq<char>> {
        if self.failures@.len() > 0 {
            Some(
                text::numeral(self.failures@.len()) + " of "@ + text::numeral(
                    self.failures@.len() + self.started as nat,
                ) + " boots failed"@,
            )
        } else {
            let counts = seq![
                held(self.started, "boots"@, args::expected_of(args, "--expect"@)),
                held(
                    self.resources.entries().len() as usize,
                    "resources"@,
                    args::expected_of(args, "--expect-resources"@),
                ),
                held(self.rooms, "rooms"@, args::expected_of(args, "--expect-rooms"@)),
                held(self.bindings, "bindings"@, args::expected_of(args, "--expect-bindings"@)),
                held(self.fired, "handler calls"@, args::expected_of(args, "--expect-events"@)),
                held(
                    self.survived,
                    "handlers ran to the end"@,
                    args::expected_of(args, "--expect-survived"@),
                ),
            ];
            match first_of(counts, 0) {
                Some(c) => Some(c),
                None => if missing > 0 {
                    Some(text::numeral(missing) + " named resources are not in the game"@)
                } else if self.faults@.len() > 0 {
                    Some(
                        text::numeral(self.faults@.len()) + " bound ids are neither: {"@ + listed(
                            self.faults@,
                            self.faults@.len() as int,
                        ) + "}"@,
                    )
                } else {
                    None
                },
            }
        }
    }

    /// Judge the sweep: what is wrong with it.
    pub fn judge(&self, args: &Vec<String>, missing: usize) -> (r: Option<String>)
        requires
            self.failures@.len() + self.started <= usize::MAX,
        ensures
            match r {
                Some(s) => self.complaint(args@, missing as nat) == Some(s@),
                None => self.complaint(args@, missing as nat) is None,
            },
    {
        if self.failures.len() > 0 {
            let mut out: String = text::decimal(self.failures.len());
            out.append(" of ");
            let all = text::decimal(self.failures.len() + self.started);
            out.append(all.as_str());
            out.append(" boots failed");
            return Some(out);
        }
        proof {
            reveal_with_fuel(first_of, 7);
        }
        if let Some(c) = args::check(self.started, "boots", args::args_expect(args)) {
            return Some(c);
        }
        if let Some(c) = args::check(
            self.resources.len(),
            "resources",
            args::expect_flag(args, "--expect-resources"),
        ) {
            return Some(c);
        }
        if let Some(c) = args::check(self.rooms, "rooms", args::expect_flag(args, "--expect-rooms")) {
            return Some(c);
        }
        if let Some(c) = args::check(
            self.bindings,
            "bindings",
            args::expect_flag(args, "--expect-bindings"),
        ) {
            return Some(c);
        }
        if let Some(c) = args::check(
            self.fired,
            "handler calls",
            args::expect_flag(args, "--expect-events"),
        ) {
            return Some(c);
        }
        if let Some(c) = args::check(
            self.survived,
            "handlers ran to the end",
            args::expect_flag(args, "--expect-survived"),
        ) {
            return Some(c);
        }
        if missing > 0 {
            let mut out: String = text::decimal(missing);
            out.append(" named resources are not in the game");
            return Some(out);
        }
        if self.faults.len() > 0 {
            let mut out: String = text::decimal(self.faults.len());
            out.append(" bound ids are neither: {");
            let list = list_of(&self.faults);
            out.append(list.as_str());
            out.append("}");
            return Some(out);
        }
        None
    }
}

/// What is said of a start that failed.
pub open spec fn failure(level: nat, checkpoint: nat, said: Seq<char>) -> Seq<char> {
    "l"@ + text::numeral(level) + " cp"@ + text::numeral(checkpoint) + ": "@ + said
}

/// What is said of a count, where it was expected to be another.
pub open spec fn held(got: usize, what: Seq<char>, want: Option<usize>) -> Option<Seq<char>> {
    match want {
        Some(w) => if got != w {
            Some(args::complaint(got as nat, what, w as nat))
        } else {
            None
        },
        None => None,
    }
}

/// The first that is said from `i` on.
pub open spec fn first_of(s: Seq<Option<Seq<char>>>, i: int) -> Option<Seq<char>>
    decreases s.len() - i,
{
    if i < 0 || i >= s.len() {
        None
    } else if s[i] is Some {
        s[i]
    } else {
        first_of(s, i + 1)
    }
}

/// The first `n` numbers, with commas between them.
pub open spec fn listed(s: Seq<u32>, n: int) -> Seq<char>
    decreases n,
{
    if n <= 0 {
        Seq::empty()
    } else if n == 1 {
        text::numeral(s[0] as nat)
    } else {
        listed(s, n - 1) + ", "@ + text::numeral(s[n - 1] as nat)
    }
}

fn list_of(v: &Vec<u32>) -> (out: String)
    ensures
        out@ == listed(v@, v@.len() as int),
{
    let n: usize = v.len();
    let mut out: String = "".to_owned();
    let mut i: usize = 0;
    proof {
        reveal_strlit("");
        assert(out@ =~= Seq::<char>::empty());
    }
    while i < n
        invariant
            n == v@.len(),
            i <= n,
            out@ == listed(v@, i as int),
        decreases n - i,
    {
        if i > 0 {
            out.append(", ");
        }
        let d = text::integer(v[i] as i64);
        out.append(d.as_str());
        proof {
            if i == 0 {
                assert(Seq::<char>::empty() + d@ =~= d@);
            }
        }
        i += 1;
    }
    out
}

/// What is wrong with a run, if anything is: a count that was expected to be
/// another.
pub open spec fn run_complaint(
    entered: usize,
    fired: usize,
    survived: usize,
    args: Seq<String>,
) -> Option<Seq<char>> {
    first_of(
        seq![
            held(entered, "rooms entered"@, args::expected_of(args, "--expect-rooms"@)),
            held(fired, "handler calls"@, args::expected_of(args, "--expect-events"@)),
            held(
                survived,
                "handlers ran to the end"@,
                args::expected_of(args, "--expect-survived"@),
            ),
        ],
        0,
    )
}

/// Judge a run: what is wrong with it.
pub fn judge_run(entered: usize, fired: usize, survived: usize, args: &Vec<String>) -> (r: Option<
    String,
>)
    ensures
        match r {
            Some(s) => run_complaint(entered, fired, survived, args@) == Some(s@),
            None => run_complaint(entered, fired, survived, args@) is None,
        },
{
    proof {
        reveal_with_fuel(first_of, 4);
    }
    if let Some(c) = args::check(entered, "rooms entered", args::expect_flag(args, "--expect-rooms")) {
        return Some(c);
    }
    if let Some(c) = args::check(fired, "handler calls", args::expect_flag(args, "--expect-events")) {
        return Some(c);
    }
    args::check(survived, "handlers ran to the end", args::expect_flag(args, "--expect-survived"))
}

/// Could none of these be read?
pub open spec fn unread(row: [bool; 4]) -> bool {
    !row@[0] && !row@[1] && !row@[2] && !row@[3]
}

/// How many of the first `n` could not be read at all.
pub open spec fn missing_of(read: Seq<[bool; 4]>, n: int) -> int
    decreases n,
{
    if n <= 0 {
        0
    } else {
        missing_of(read, n - 1) + (if unread(read[n - 1]) {
            1int
        } else {
            0
        })
    }
}

/// How many resources are missing. Each row says whether the resource can be
/// read by its own name, as a model, as a texture and as a sound.
pub fn missing(read: &Vec<[bool; 4]>) -> (n: usize)
    ensures
        n == missing_of(read@, read@.len() as int),
{
    let all: usize = read.len();
    let mut n: usize = 0;
    let mut i: usize = 0;
    while i < all
        invariant
            all == read@.len(),
            i <= all,
            n <= i,
            n == missing_of(read@, i as int),
        decreases all - i,
    {
        let row: [bool; 4] = read[i];
        if !row[0] && !row[1] && !row[2] && !row[3] {
            n += 1;
        }
        i += 1;
    }
    n
}

/// What is wrong with a level that was drawn from a checkpoint, where something
/// else was expected of it.
pub open spec fn frame_complaint(drawn: usize, moved: usize, args: Seq<String>) -> Option<
    Seq<char>,
> {
    match (args::expected_of(args, "--expect-drawn"@), args::expected_of(args, "--expect-moving"@)) {
        (Some(want), _) if drawn != want => Some(
            "drew "@ + text::numeral(drawn as nat) + " triangles, expected "@ + text::numeral(
                want as nat,
            ),
        ),
        (_, Some(want)) if moved < want => Some(
            text::numeral(moved as nat) + " pixels moved between two clocks, expected at least "@
                + text::numeral(want as nat)
                + " -- the node transforms are not reaching the shader"@,
        ),
        _ => None,
    }
}

/// Judge a level that was drawn from a checkpoint: how many triangles that took,
/// and how many pixels moved between two clocks. The first thing that is wrong.
pub fn judge_play(drawn: usize, moved: usize, args: &Vec<String>) -> (r: Option<String>)
    ensures
        match r {
            Some(s) => frame_complaint(drawn, moved, args@) == Some(s@),
            None => frame_complaint(drawn, moved, args@) is None,
        },
{
    if let Some(want) = args::expect_flag(args, "--expect-drawn") {
        if drawn != want {
            let mut s: String = "drew ".to_owned();
            s.append(text::decimal(drawn).as_str());
            s.append(" triangles, expected ");
            s.append(text::decimal(want).as_str());
            return Some(s);
        }
    }
    if let Some(want) = args::expect_flag(args, "--expect-moving") {
        if moved < want {
            let mut s: String = text::decimal(moved);
            s.append(" pixels moved between two clocks, expected at least ");
            s.append(text::decimal(want).as_str());
            s.append(" -- the node transforms are not reaching the shader");
            return Some(s);
        }
    }
    None
}

/// The lines on the handlers of a run: the name, those that came to their end,
/// and all.
pub open spec fn slot_lines(s: Seq<(String, (usize, usize))>, n: int) -> Seq<Seq<char>>
    decreases n,
{
    if n <= 0 {
        Seq::empty()
    } else {
        let (f, e) = s[n - 1].1;
        slot_lines(s, n - 1).push(
            s[n - 1].0@ + " "@ + text::numeral(e as nat) + "/"@ + text::numeral(f as nat),
        )
    }
}

/// Texts that are put in another order stay the same texts.
proof fn same_texts(a: Seq<String>, b: Seq<String>)
    requires
        a.to_multiset() == b.to_multiset(),
    ensures
        names::texts(a).to_multiset() == names::texts(b).to_multiset(),
    decreases a.len(),
{
    broadcast use vstd::seq_lib::group_to_multiset_ensures;

    order::same_values(a, b);
    if a.len() == 0 {
        assert(names::texts(a) =~= names::texts(b));
    } else {
        let x = a.last();
        assert(a.contains(x));
        let j = b.index_of(x);
        assert(a.remove(a.len() - 1).to_multiset() =~= b.remove(j).to_multiset());
        same_texts(a.remove(a.len() - 1), b.remove(j));
        let (ta, tb) = (names::texts(a), names::texts(b));
        assert(names::texts(a.remove(a.len() - 1)) =~= ta.remove(ta.len() - 1));
        assert(names::texts(b.remove(j)) =~= tb.remove(j));
        assert(ta =~= ta.remove(ta.len() - 1).insert(ta.len() - 1, x@));
        assert(tb =~= tb.remove(j).insert(j, x@));
    }
}

/// The lines on the handlers of a run, in order.
pub fn slots(t: &Ticking) -> (out: Vec<String>)
    ensures
        order::in_order(out@),
        names::texts(out@).to_multiset() == slot_lines(
            t.fired.entries(),
            t.fired.entries().len() as int,
        ).to_multiset(),
{
    let n: usize = t.fired.len();
    let mut out: Vec<String> = Vec::new();
    let mut i: usize = 0;
    assert(names::texts(out@) =~= slot_lines(t.fired.entries(), 0));
    while i < n
        invariant
            n == t.fired.entries().len(),
            i <= n,
            names::texts(out@) == slot_lines(t.fired.entries(), i as int),
        decreases n - i,
    {
        let (name, counts) = t.fired.at(i);
        let mut line: String = name.to_owned();
        line.append(" ");
        let e = text::decimal(counts.1);
        line.append(e.as_str());
        line.append("/");
        let f = text::decimal(counts.0);
        line.append(f.as_str());
        let ghost before = out@;
        out.push(line);
        assert(names::texts(out@) =~= names::texts(before).push(line@));
        i += 1;
    }
    let sorted = order::sorted(out);
    proof {
        same_texts(sorted@, out@);
    }
    sorted
}

/// A sweep in which nothing failed, nothing is missing and nothing is bound
/// wrongly, and of which nothing was expected, is not complained of.
pub proof fn a_clean_sweep_is_not_complained_of(s: &Sweep, args: Seq<String>)
    requires
        s.failures@.len() == 0,
        s.faults@.len() == 0,
        forall|flag: Seq<char>| #[trigger] args::expected_of(args, flag) is None,
    ensures
        s.complaint(args, 0) is None,
{
    reveal_with_fuel(first_of, 7);
}

/// A failed start is complained of whatever else is right.
pub proof fn a_failed_start_is_complained_of(s: &Sweep, args: Seq<String>, missing: nat)
    requires
        s.failures@.len() > 0,
    ensures
        s.complaint(args, missing) is Some,
{
}

// ---------------------------------------------------------------------------
// What is complained of
// ---------------------------------------------------------------------------
/// A count is complained of exactly if another was expected, and then with
/// both.
pub proof fn only_what_was_expected_is_held(got: usize, what: Seq<char>, want: usize)
    ensures
        held(got, what, None) is None,
        got == want ==> held(got, what, Some(want)) is None,
        got != want ==> held(got, what, Some(want)) == Some(
            text::numeral(got as nat) + " "@ + what + ", expected "@ + text::numeral(want as nat),
        ),
{
}

/// The first complaint is made, and no other.
pub proof fn the_first_complaint_is_made(s: Seq<Option<Seq<char>>>, from: int, i: int)
    requires
        0 <= from <= i <= s.len(),
        forall|j: int| from <= j < i ==> (#[trigger] s[j]) is None,
        i < s.len() ==> s[i] is Some,
    ensures
        i < s.len() ==> first_of(s, from) == s[i],
        i == s.len() ==> first_of(s, from) is None,
    decreases i - from,
{
    if from < i {
        assert(s[from] is None);
        the_first_complaint_is_made(s, from + 1, i);
    }
}

/// A start that failed is told by its level and its checkpoint, and what was
/// said.
pub proof fn a_failure_says_where(level: nat, checkpoint: nat, said: Seq<char>)
    ensures
        failure(level, checkpoint, said) == seq!['l'] + text::numeral(level) + seq![' ', 'c', 'p']
            + text::numeral(checkpoint) + seq![':', ' '] + said,
{
    reveal_strlit("l");
    reveal_strlit(" cp");
    reveal_strlit(": ");
    assert("l"@ =~= seq!['l']);
    assert(" cp"@ =~= seq![' ', 'c', 'p']);
    assert(": "@ =~= seq![':', ' ']);
}

/// The numbers at fault are listed in their order, with a comma and a space
/// between each two.
pub proof fn faults_are_listed_with_commas(s: Seq<u32>, n: int)
    requires
        1 <= n < s.len(),
    ensures
        listed(s, 0) == Seq::<char>::empty(),
        listed(s, 1) == text::numeral(s[0] as nat),
        listed(s, n + 1) == listed(s, n) + seq![',', ' '] + text::numeral(s[n] as nat),
{
    reveal_strlit(", ");
    assert(", "@ =~= seq![',', ' ']);
}

/// A sweep is complained of for its failures first; then for the first of its
/// counts that was expected to be another; then for what it named that is
/// missing; and at last for the numbers that it bound at fault.
pub proof fn a_sweep_is_complained_of_in_order(s: &Sweep, args: Seq<String>, missing: nat)
    ensures
        s.failures@.len() > 0 ==> s.complaint(args, missing) == Some(
            text::numeral(s.failures@.len()) + " of "@ + text::numeral(
                s.failures@.len() + s.started as nat,
            ) + " boots failed"@,
        ),
        s.failures@.len() == 0 ==> (args::expected_of(args, "--expect"@) matches Some(w) ==> (
        s.started != w ==> s.complaint(args, missing) == held(s.started, "boots"@, Some(w)))),
        s.failures@.len() == 0 && args::expected_of(args, "--expect"@) is None ==> (
        args::expected_of(args, "--expect-resources"@) matches Some(w) ==> (
        s.resources.entries().len() as usize != w ==> s.complaint(args, missing) == held(
            s.resources.entries().len() as usize,
            "resources"@,
            Some(w),
        ))),
        s.failures@.len() == 0 && args::expected_of(args, "--expect"@) is None && args::expected_of(
            args,
            "--expect-resources"@,
        ) is None ==> (args::expected_of(args, "--expect-rooms"@) matches Some(w) ==> (s.rooms != w
            ==> s.complaint(args, missing) == held(s.rooms, "rooms"@, Some(w)))),
        s.failures@.len() == 0 && args::expected_of(args, "--expect"@) is None && args::expected_of(
            args,
            "--expect-resources"@,
        ) is None && args::expected_of(args, "--expect-rooms"@) is None ==> (args::expected_of(
            args,
            "--expect-bindings"@,
        ) matches Some(w) ==> (s.bindings != w ==> s.complaint(args, missing) == held(
            s.bindings,
            "bindings"@,
            Some(w),
        ))),
        s.failures@.len() == 0 && (forall|flag: Seq<char>|
            flag != "--expect-events"@ && flag != "--expect-survived"@ ==> #[trigger]
            args::expected_of(args, flag) is None) ==> {
            &&& args::expected_of(args, "--expect-events"@) matches Some(w) ==> s.fired != w
                ==> s.complaint(args, missing) == held(s.fired, "handler calls"@, Some(w))
            &&& args::expected_of(args, "--expect-events"@) is None ==> (args::expected_of(
                args,
                "--expect-survived"@,
            ) matches Some(w) ==> s.survived != w ==> s.complaint(args, missing) == held(
                s.survived,
                "handlers ran to the end"@,
                Some(w),
            ))
        },
        s.failures@.len() == 0 && (forall|flag: Seq<char>|
            #[trigger] args::expected_of(args, flag) is None) ==> {
            &&& missing > 0 ==> s.complaint(args, missing) == Some(
                text::numeral(missing) + " named resources are not in the game"@,
            )
            &&& missing == 0 && s.faults@.len() > 0 ==> s.complaint(args, missing) == Some(
                text::numeral(s.faults@.len()) + " bound ids are neither: {"@ + listed(
                    s.faults@,
                    s.faults@.len() as int,
                ) + "}"@,
            )
            &&& missing == 0 && s.faults@.len() == 0 ==> s.complaint(args, missing) is None
        },
{
    reveal_with_fuel(first_of, 8);
    reveal_strlit("--expect");
    reveal_strlit("--expect-resources");
    reveal_strlit("--expect-rooms");
    reveal_strlit("--expect-bindings");
    reveal_strlit("--expect-events");
    reveal_strlit("--expect-survived");
    assert("--expect-events"@.len() == 15 && "--expect-survived"@.len() == 17);
    assert("--expect-bindings"@.len() == 17 && "--expect-resources"@.len() == 18);
    assert("--expect-bindings"@[9] == 'b' && "--expect-survived"@[9] == 's');
}

/// A run is complained of for the rooms entered, then for the calls of
/// handlers, then for those that came to their end: for the first that was
/// expected to be another.
pub proof fn a_run_is_complained_of_in_order(
    entered: usize,
    fired: usize,
    survived: usize,
    args: Seq<String>,
)
    ensures
        ({
            let rooms = held(
                entered,
                "rooms entered"@,
                args::expected_of(args, "--expect-rooms"@),
            );
            let calls = held(fired, "handler calls"@, args::expected_of(args, "--expect-events"@));
            let ends = held(
                survived,
                "handlers ran to the end"@,
                args::expected_of(args, "--expect-survived"@),
            );
            let r = run_complaint(entered, fired, survived, args);
            &&& rooms is Some ==> r == rooms
            &&& rooms is None && calls is Some ==> r == calls
            &&& rooms is None && calls is None ==> r == ends
        }),
{
    reveal_with_fuel(first_of, 4);
}

/// A name is missing exactly if it was read in none of the four ways; and how
/// many are is how many there are of them.
pub proof fn every_name_unread_is_missing(read: Seq<[bool; 4]>, n: int)
    requires
        0 <= n <= read.len(),
    ensures
        Set::new(
            |k: int| 0 <= k < n && (forall|m: int| 0 <= m < 4 ==> !#[trigger] read[k]@[m]),
        ).finite(),
        missing_of(read, n) == Set::new(
            |k: int| 0 <= k < n && (forall|m: int| 0 <= m < 4 ==> !#[trigger] read[k]@[m]),
        ).len(),
    decreases n,
{
    let all = Set::new(
        |k: int| 0 <= k < n && (forall|m: int| 0 <= m < 4 ==> !#[trigger] read[k]@[m]),
    );
    if n > 0 {
        every_name_unread_is_missing(read, n - 1);
        let rest = Set::new(
            |k: int| 0 <= k < n - 1 && (forall|m: int| 0 <= m < 4 ==> !#[trigger] read[k]@[m]),
        );
        if unread(read[n - 1]) {
            assert(forall|m: int| 0 <= m < 4 ==> !#[trigger] read[n - 1]@[m]);
            assert(all =~= rest.insert(n - 1));
        } else {
            assert(read[n - 1]@[0] || read[n - 1]@[1] || read[n - 1]@[2] || read[n - 1]@[3]);
            assert(all =~= rest);
        }
    } else {
        assert(all =~= Set::empty());
    }
}

/// A frame is complained of where another number of triangles was expected,
/// and else where fewer pixels moved than were expected to.
pub proof fn a_frame_is_complained_of_in_order(drawn: usize, moved: usize, args: Seq<String>)
    ensures
        args::expected_of(args, "--expect-drawn"@) matches Some(want) ==> (drawn != want
            ==> frame_complaint(drawn, moved, args) == Some(
            "drew "@ + text::numeral(drawn as nat) + " triangles, expected "@ + text::numeral(
                want as nat,
            ),
        )),
        (args::expected_of(args, "--expect-drawn"@) matches Some(want) ==> drawn == want) ==> (
        args::expected_of(args, "--expect-moving"@) matches Some(least) ==> (moved < least
            ==> frame_complaint(drawn, moved, args) == Some(
            text::numeral(moved as nat) + " pixels moved between two clocks, expected at least "@
                + text::numeral(least as nat)
                + " -- the node transforms are not reaching the shader"@,
        )) && (moved >= least ==> frame_complaint(drawn, moved, args) is None)),
        (args::expected_of(args, "--expect-drawn"@) matches Some(want) ==> drawn == want)
            && args::expected_of(args, "--expect-moving"@) is None ==> frame_complaint(
            drawn,
            moved,
            args,
        ) is None,
{
}

/// Each handler has a line: its name, how often it came to its end, and out of
/// how many calls.
pub proof fn every_handler_has_a_line(s: Seq<(String, (usize, usize))>, n: int)
    requires
        0 <= n < s.len(),
    ensures
        slot_lines(s, 0) == Seq::<Seq<char>>::empty(),
        slot_lines(s, n + 1) == slot_lines(s, n).push(
            s[n].0@ + seq![' '] + text::numeral(s[n].1.1 as nat) + seq!['/'] + text::numeral(
                s[n].1.0 as nat,
            ),
        ),
{
    reveal_strlit(" ");
    reveal_strlit("/");
    assert(" "@ =~= seq![' ']);
    assert("/"@ =~= seq!['/']);
}

/// Two counts put together have every name of either, and of each as often as
/// the two together.
pub proof fn counts_put_together_add_up(
    all: Map<Seq<char>, usize>,
    a: Map<Seq<char>, usize>,
    b: Map<Seq<char>, usize>,
    k: Seq<char>,
)
    requires
        together(all, a, b),
    ensures
        all.contains_key(k) <==> a.contains_key(k) || b.contains_key(k),
        a.contains_key(k) && b.contains_key(k) ==> all[k] == a[k] + b[k],
        a.contains_key(k) && !b.contains_key(k) ==> all[k] == a[k],
        !a.contains_key(k) && b.contains_key(k) ==> all[k] == b[k],
{
    assert(all.contains_key(k) <==> a.contains_key(k) || b.contains_key(k));
    assert(tally::times(all, k) == tally::times(a, k) + tally::times(b, k));
}

} // verus!
