//! Orders, and lists put in order.
use crate::text;
use vstd::multiset::Multiset;
use vstd::prelude::*;

verus! {

/// Values with a total order of their own.
pub trait Ranked: Sized {
    /// Does `self` come no later than `other`?
    spec fn precedes(self, other: Self) -> bool;

    proof fn total(a: Self, b: Self)
        ensures
            a.precedes(b) || b.precedes(a),
    ;

    proof fn transitive(a: Self, b: Self, c: Self)
        requires
            a.precedes(b),
            b.precedes(c),
        ensures
            a.precedes(c),
    ;

    fn is_before(&self, other: &Self) -> (r: bool)
        ensures
            r == self.precedes(*other),
    ;
}

/// Does every value of `s` precede those behind it?
pub open spec fn in_order<T: Ranked>(s: Seq<T>) -> bool {
    forall|i: int, j: int| 0 <= i <= j < s.len() ==> (#[trigger] s[i]).precedes(#[trigger] s[j])
}

/// The order of a dictionary, character by character.
pub open spec fn text_precedes(a: Seq<char>, b: Seq<char>) -> bool
    decreases a.len(),
{
    if a.len() == 0 {
        true
    } else if b.len() == 0 {
        false
    } else if a[0] == b[0] {
        text_precedes(a.drop_first(), b.drop_first())
    } else {
        a[0] < b[0]
    }
}

pub proof fn text_total(a: Seq<char>, b: Seq<char>)
    ensures
        text_precedes(a, b) || text_precedes(b, a),
    decreases a.len(),
{
    if a.len() > 0 && b.len() > 0 && a[0] == b[0] {
        text_total(a.drop_first(), b.drop_first());
    }
}

pub proof fn text_transitive(a: Seq<char>, b: Seq<char>, c: Seq<char>)
    requires
        text_precedes(a, b),
        text_precedes(b, c),
    ensures
        text_precedes(a, c),
    decreases a.len(),
{
    if a.len() > 0 && b.len() > 0 && c.len() > 0 && a[0] == b[0] && b[0] == c[0] {
        text_transitive(a.drop_first(), b.drop_first(), c.drop_first());
    }
}

/// Two texts that precede each other are one.
pub proof fn text_antisymmetric(a: Seq<char>, b: Seq<char>)
    requires
        text_precedes(a, b),
        text_precedes(b, a),
    ensures
        a == b,
    decreases a.len(),
{
    if a.len() > 0 {
        assert(b.len() > 0);
        assert(a[0] == b[0]);
        text_antisymmetric(a.drop_first(), b.drop_first());
        assert(a.len() == b.len());
        assert forall|i: int| 0 <= i < a.len() implies a[i] == b[i] by {
            if i > 0 {
                assert(a[i] == a.drop_first()[i - 1]);
                assert(b[i] == b.drop_first()[i - 1]);
            }
        }
    } else {
        assert(b.len() == 0);
    }
    assert(a =~= b);
}

/// Does `a` come no later than `b` in a dictionary?
pub fn text_before(a: &str, b: &str) -> (r: bool)
    ensures
        r == text_precedes(a@, b@),
{
    let x = text::chars_of(a);
    let y = text::chars_of(b);
    let mut i: usize = 0;
    assert(a@.skip(0) == a@);
    assert(b@.skip(0) == b@);
    while i < x.len() && i < y.len() && x[i] == y[i]
        invariant
            x@ == a@,
            y@ == b@,
            i <= x@.len(),
            i <= y@.len(),
            text_precedes(a@.skip(i as int), b@.skip(i as int)) == text_precedes(a@, b@),
        decreases x@.len() - i,
    {
        proof {
            assert(a@.skip(i as int).drop_first() == a@.skip(i + 1));
            assert(b@.skip(i as int).drop_first() == b@.skip(i + 1));
        }
        i = i + 1;
    }
    if i == x.len() {
        true
    } else if i == y.len() {
        false
    } else {
        x[i] < y[i]
    }
}

impl Ranked for String {
    open spec fn precedes(self, other: Self) -> bool {
        text_precedes(self@, other@)
    }

    proof fn total(a: Self, b: Self) {
        text_total(a@, b@);
    }

    proof fn transitive(a: Self, b: Self, c: Self) {
        text_transitive(a@, b@, c@);
    }

    fn is_before(&self, other: &Self) -> (r: bool) {
        text_before(self.as_str(), other.as_str())
    }
}

impl Ranked for u32 {
    open spec fn precedes(self, other: Self) -> bool {
        self <= other
    }

    proof fn total(a: Self, b: Self) {
    }

    proof fn transitive(a: Self, b: Self, c: Self) {
    }

    fn is_before(&self, other: &Self) -> (r: bool) {
        *self <= *other
    }
}

impl Ranked for usize {
    open spec fn precedes(self, other: Self) -> bool {
        self <= other
    }

    proof fn total(a: Self, b: Self) {
    }

    proof fn transitive(a: Self, b: Self, c: Self) {
    }

    fn is_before(&self, other: &Self) -> (r: bool) {
        *self <= *other
    }
}

/// Where `x` belongs in a list that is in order: behind everything that
/// precedes it.
fn place<T: Ranked>(v: &Vec<T>, x: &T) -> (at: usize)
    requires
        in_order(v@),
    ensures
        at <= v@.len(),
        forall|i: int| 0 <= i < at ==> (#[trigger] v@[i]).precedes(*x),
        forall|i: int| at <= i < v@.len() ==> x.precedes(#[trigger] v@[i]),
{
    let mut at: usize = v.len();
    while at > 0 && !v[at - 1].is_before(x)
        invariant
            in_order(v@),
            at <= v@.len(),
            forall|i: int| at <= i < v@.len() ==> x.precedes(#[trigger] v@[i]),
        decreases at,
    {
        proof {
            T::total(v@[at - 1], *x);
        }
        at = at - 1;
    }
    proof {
        if at > 0 {
            assert forall|i: int| 0 <= i < at implies (#[trigger] v@[i]).precedes(*x) by {
                T::transitive(v@[i], v@[at - 1], *x);
            }
        }
    }
    at
}

/// The same values in order.
pub fn sorted<T: Ranked>(v: Vec<T>) -> (out: Vec<T>)
    ensures
        in_order(out@),
        out@.to_multiset() == v@.to_multiset(),
{
    let ghost all = v@;
    let mut from: Vec<T> = v;
    let mut out: Vec<T> = Vec::new();
    assert(from@.to_multiset().add(out@.to_multiset()) =~= all.to_multiset()) by {
        broadcast use vstd::seq_lib::group_to_multiset_ensures;

    }
    while from.len() > 0
        invariant
            in_order(out@),
            from@.to_multiset().add(out@.to_multiset()) =~= all.to_multiset(),
        decreases from@.len(),
    {
        let ghost was = from@;
        let ghost before = out@;
        let x = from.remove(0);
        let at: usize = place(&out, &x);
        out.insert(at, x);
        proof {
            broadcast use vstd::seq_lib::group_to_multiset_ensures;

            assert(out@ == before.insert(at as int, x));
            assert(from@ == was.remove(0));
            assert(out@.to_multiset() =~= before.to_multiset().insert(x));
            assert forall|i: int, j: int| 0 <= i <= j < out@.len() implies (
            #[trigger] out@[i]).precedes(#[trigger] out@[j]) by {
                T::total(x, x);
                if i < at {
                    assert(out@[i] == before[i]);
                } else if i > at {
                    assert(out@[i] == before[i - 1]);
                }
                if j < at {
                    assert(out@[j] == before[j]);
                } else if j > at {
                    assert(out@[j] == before[j - 1]);
                }
            }
        }
    }
    proof {
        broadcast use vstd::seq_lib::group_to_multiset_ensures;

        assert(from@.to_multiset() =~= Multiset::empty());
    }
    out
}

/// Lists that hold the same values, each as often, agree on what they contain,
/// on how long they are, and on whether anything occurs twice.
pub proof fn same_values<T>(a: Seq<T>, b: Seq<T>)
    requires
        a.to_multiset() == b.to_multiset(),
    ensures
        a.len() == b.len(),
        forall|x: T| a.contains(x) <==> b.contains(x),
        a.no_duplicates() <==> b.no_duplicates(),
{
    a.to_multiset_ensures();
    b.to_multiset_ensures();
    assert forall|x: T| a.contains(x) == b.contains(x) by {
        assert(a.contains(x) <==> a.to_multiset().count(x) > 0);
        assert(b.contains(x) <==> b.to_multiset().count(x) > 0);
    }
    if a.no_duplicates() {
        a.lemma_multiset_has_no_duplicates();
        b.lemma_multiset_has_no_duplicates_conv();
    }
    if b.no_duplicates() {
        b.lemma_multiset_has_no_duplicates();
        a.lemma_multiset_has_no_duplicates_conv();
    }
}

/// The same values, each once: of a list in order, what is equal to what stands
/// before it is left out.
fn once(v: Vec<u32>) -> (out: Vec<u32>)
    requires
        in_order(v@),
    ensures
        forall|i: int, j: int| 0 <= i < j < out@.len() ==> out@[i] < out@[j],
        forall|x: u32| out@.contains(x) <==> v@.contains(x),
{
    let n: usize = v.len();
    let mut out: Vec<u32> = Vec::new();
    let mut i: usize = 0;
    while i < n
        invariant
            n == v@.len(),
            i <= n,
            in_order(v@),
            forall|a: int, b: int| 0 <= a < b < out@.len() ==> out@[a] < out@[b],
            forall|x: u32| out@.contains(x) <==> v@.take(i as int).contains(x),
            out@.len() > 0 <==> i > 0,
            i > 0 ==> out@.last() == v@[i - 1],
        decreases n - i,
    {
        let x: u32 = v[i];
        let ghost before = out@;
        let fresh: bool = out.len() == 0 || out[out.len() - 1] != x;
        if fresh {
            proof {
                if i > 0 {
                    assert(v@[i - 1].precedes(v@[i as int]));
                }
            }
            out.push(x);
        }
        proof {
            let old_part = v@.take(i as int);
            let part = v@.take(i + 1);
            assert(part == old_part.push(x));
            assert forall|y: u32| out@.contains(y) <==> part.contains(y) by {
                if out@.contains(y) {
                    let k = choose|k: int| 0 <= k < out@.len() && out@[k] == y;
                    if k < before.len() {
                        assert(before[k] == y);
                        assert(before.contains(y));
                        assert(old_part.contains(y));
                        let m = choose|m: int| 0 <= m < old_part.len() && old_part[m] == y;
                        assert(part[m] == y);
                    } else {
                        assert(part[i as int] == y);
                    }
                }
                if part.contains(y) {
                    let m = choose|m: int| 0 <= m < part.len() && part[m] == y;
                    if m < i {
                        assert(old_part[m] == y);
                        assert(before.contains(y));
                        let k = choose|k: int| 0 <= k < before.len() && before[k] == y;
                        assert(out@[k] == y);
                    } else if fresh {
                        assert(out@[before.len() as int] == y);
                    } else {
                        assert(out@[out@.len() - 1] == y);
                    }
                }
            }
        }
        i += 1;
    }
    assert(v@.take(n as int) == v@);
    out
}

/// The same numbers in order, each once.
pub fn sorted_once(v: Vec<u32>) -> (out: Vec<u32>)
    ensures
        forall|i: int, j: int| 0 <= i < j < out@.len() ==> out@[i] < out@[j],
        forall|x: u32| #[trigger] out@.contains(x) <==> v@.contains(x),
{
    let ghost all = v@;
    let line = sorted(v);
    proof {
        same_values(line@, all);
    }
    once(line)
}

/// Of two texts that begin alike, the one comes first that ends there, or whose
/// next character is the smaller.
pub proof fn the_first_difference_decides(p: Seq<char>, x: Seq<char>, y: Seq<char>)
    ensures
        text_precedes(p, p + x),
        x.len() > 0 ==> !text_precedes(p + x, p),
        x.len() > 0 && y.len() > 0 && x[0] < y[0] ==> text_precedes(p + x, p + y)
            && !text_precedes(p + y, p + x),
    decreases p.len(),
{
    if p.len() > 0 {
        let q = p.drop_first();
        the_first_difference_decides(q, x, y);
        assert((p + x).drop_first() =~= q + x);
        assert((p + y).drop_first() =~= q + y);
        assert((p + x)[0] == p[0] && (p + y)[0] == p[0]);
    } else {
        assert(p + x =~= x);
        assert(p + y =~= y);
    }
}

/// Texts, and numbers, are in order where each comes before, or is, the next.
pub proof fn what_is_in_order_ascends(a: Seq<String>, b: Seq<usize>, i: int, j: int)
    ensures
        in_order(a) && 0 <= i <= j < a.len() ==> text_precedes(a[i]@, a[j]@),
        in_order(b) && 0 <= i <= j < b.len() ==> b[i] <= b[j],
{
}

} // verus!
