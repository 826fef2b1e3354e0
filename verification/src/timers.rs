//! Timers: who is called when.
use crate::names;
use crate::names::Names;
use vstd::prelude::*;

verus! {

/// When each name's timer comes due. A name has one timer.
pub struct Timers {
    pub due: Names<i64>,
}

/// Those of the first `n` that have come due, or those that have not.
pub open spec fn picked(s: Seq<(String, i64)>, clock: i64, come: bool, n: int) -> Seq<(String, i64)>
    decreases n,
{
    if n <= 0 {
        seq![]
    } else {
        let rest = picked(s, clock, come, n - 1);
        if (s[n - 1].1 <= clock) == come {
            rest.push(s[n - 1])
        } else {
            rest
        }
    }
}

proof fn picked_ascends(s: Seq<(String, i64)>, clock: i64, come: bool, n: int)
    requires
        names::ascending(s),
        0 <= n <= s.len(),
    ensures
        names::ascending(picked(s, clock, come, n)),
        forall|i: int|
            0 <= i < picked(s, clock, come, n).len() ==> exists|k: int|
                0 <= k < n && s[k] == #[trigger] picked(s, clock, come, n)[i],
    decreases n,
{
    if n > 0 {
        picked_ascends(s, clock, come, n - 1);
        let rest = picked(s, clock, come, n - 1);
        let all = picked(s, clock, come, n);
        assert forall|i: int| 0 <= i < all.len() implies exists|k: int|
            0 <= k < n && s[k] == #[trigger] all[i] by {
            if i < rest.len() {
                assert(all[i] == rest[i]);
                let k = choose|k: int| 0 <= k < n - 1 && s[k] == rest[i];
                assert(s[k] == all[i]);
            } else {
                assert(s[n - 1] == all[i]);
            }
        }
        assert forall|i: int, j: int| 0 <= i < j < all.len() implies names::earlier(
            (#[trigger] all[i]).0@,
            (#[trigger] all[j]).0@,
        ) by {
            assert(all[i] == rest[i]);
            if j < rest.len() {
                assert(all[j] == rest[j]);
            } else {
                let k = choose|k: int| 0 <= k < n - 1 && s[k] == rest[i];
                assert(names::earlier(s[k].0@, s[n - 1].0@));
            }
        }
    }
}

/// What is picked is in the register exactly if it comes due as asked.
proof fn picked_keeps(s: Seq<(String, i64)>, clock: i64, come: bool, n: int, i: int)
    requires
        0 <= i < n <= s.len(),
        (s[i].1 <= clock) == come,
    ensures
        picked(s, clock, come, n).contains(s[i]),
    decreases n,
{
    let rest = picked(s, clock, come, n - 1);
    let all = picked(s, clock, come, n);
    if i == n - 1 {
        assert(all[all.len() - 1] == s[i]);
    } else {
        picked_keeps(s, clock, come, n - 1, i);
        let k = choose|k: int| 0 <= k < rest.len() && rest[k] == s[i];
        assert(all[k] == s[i]);
    }
}

proof fn picked_only(s: Seq<(String, i64)>, clock: i64, come: bool, n: int, k: int)
    requires
        0 <= n <= s.len(),
        0 <= k < picked(s, clock, come, n).len(),
    ensures
        (picked(s, clock, come, n)[k].1 <= clock) == come,
    decreases n,
{
    if n > 0 {
        let rest = picked(s, clock, come, n - 1);
        if k < rest.len() {
            picked_only(s, clock, come, n - 1, k);
        }
    }
}

impl Timers {
    /// No timers.
    pub fn new() -> (t: Timers)
        ensures
            t.due@ == Map::<Seq<char>, i64>::empty(),
    {
        Timers { due: Names::new() }
    }

    /// Call a name at this time, and not at any it was to be called before.
    pub fn set(&mut self, name: String, when: i64)
        ensures
            final(self).due@ == old(self).due@.insert(name@, when),
    {
        self.due.insert(name, when);
    }

    /// Take out the names whose time has come, in their order. Each is called
    /// once: whoever sets a new timer when called is not called again for it
    /// at once.
    pub fn take_due(&mut self, clock: i64) -> (out: Vec<String>)
        ensures
            forall|i: int, j: int|
                0 <= i < j < out@.len() ==> names::earlier(
                    (#[trigger] out@[i])@,
                    (#[trigger] out@[j])@,
                ),
            forall|k: Seq<char>| #[trigger]
                names::lists(out@, k) <==> old(self).due@.contains_key(k) && old(self).due@[k]
                    <= clock,
            final(self).due@ == old(self).due@.restrict(
                Set::new(|k: Seq<char>| old(self).due@[k] > clock),
            ),
    {
        let all = self.due.take_all();
        let ghost was = all@;
        let mut from: Vec<(String, i64)> = all;
        let mut out: Vec<String> = Vec::new();
        let mut left: Vec<(String, i64)> = Vec::new();
        let ghost mut n: int = 0;
        assert(was.skip(0) == was);
        while from.len() > 0
            invariant
                0 <= n <= was.len(),
                from@ == was.skip(n),
                names::ascending(was),
                left@ == picked(was, clock, false, n),
                out@.len() == picked(was, clock, true, n).len(),
                forall|i: int|
                    0 <= i < out@.len() ==> (#[trigger] out@[i]) == picked(
                        was,
                        clock,
                        true,
                        n,
                    )[i].0,
            decreases from@.len(),
        {
            let (name, when) = from.remove(0);
            proof {
                assert(was.skip(n)[0] == was[n]);
                assert(was.skip(n).remove(0) =~= was.skip(n + 1));
            }
            if when <= clock {
                out.push(name);
            } else {
                left.push((name, when));
            }
            proof {
                n = n + 1;
            }
        }
        proof {
            assert(n == was.len());
            picked_ascends(was, clock, true, n);
            picked_ascends(was, clock, false, n);
        }
        self.due = Names::of(left);
        proof {
            let here = picked(was, clock, true, n);
            let rest = left@;
            assert forall|i: int, j: int| 0 <= i < j < out@.len() implies names::earlier(
                (#[trigger] out@[i])@,
                (#[trigger] out@[j])@,
            ) by {
                assert(names::earlier(here[i].0@, here[j].0@));
            }
            assert forall|k: Seq<char>| #[trigger]
                names::lists(out@, k) <==> old(self).due@.contains_key(k) && old(self).due@[k]
                    <= clock by {
                if names::lists(out@, k) {
                    let i = choose|i: int| 0 <= i < out@.len() && (#[trigger] out@[i])@ == k;
                    picked_only(was, clock, true, n, i);
                    let m = choose|m: int| 0 <= m < n && was[m] == here[i];
                    names::map_at(was, m);
                }
                if old(self).due@.contains_key(k) && old(self).due@[k] <= clock {
                    let m = names::map_where(was, k);
                    picked_keeps(was, clock, true, n, m);
                    let i = choose|i: int| 0 <= i < here.len() && here[i] == was[m];
                    assert(out@[i]@ == k);
                }
            }
            let want = old(self).due@.restrict(Set::new(|k: Seq<char>| old(self).due@[k] > clock));
            assert forall|k: Seq<char>| self.due@.contains_key(k) <==> want.contains_key(k) by {
                if self.due@.contains_key(k) {
                    let i = names::map_where(rest, k);
                    picked_only(was, clock, false, n, i);
                    let m = choose|m: int| 0 <= m < n && was[m] == rest[i];
                    names::map_at(was, m);
                }
                if want.contains_key(k) {
                    let m = names::map_where(was, k);
                    picked_keeps(was, clock, false, n, m);
                    let i = choose|i: int| 0 <= i < rest.len() && rest[i] == was[m];
                    names::map_at(rest, i);
                }
            }
            assert forall|k: Seq<char>| self.due@.contains_key(k) implies self.due@[k]
                == want[k] by {
                let i = names::map_where(rest, k);
                assert(rest[i] == picked(was, clock, false, n)[i]);
                let m = choose|m: int| 0 <= m < n && was[m] == rest[i];
                names::map_at(was, m);
                assert(want.contains_key(k));
            }
            assert(self.due@ =~= want);
        }
        out
    }
}

} // verus!
